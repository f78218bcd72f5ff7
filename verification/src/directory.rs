//! The directory store: an in-memory map from onion address to server
//! record, drained serially by the directory actor. Its view is a
//! mathematical map; every operation's effect is stated against that view,
//! and the store's laws — left-to-right application is last-writer-wins,
//! and `last_seen` never moves backwards — are proved here.

use vstd::prelude::*;

verus! {

/// A maker's record: its onion endpoint, the monotonic time of the last
/// successful interaction, and whether the most recent probe failed.
#[derive(Debug)]
pub struct ServerInfo {
    /// The maker's `<label>.onion:<port>` endpoint.
    pub onion_address: String,
    /// Monotonic timestamp (seconds) of the last announcement or pong.
    pub last_seen: u64,
    /// True when the most recent probe attempt failed.
    pub stale: bool,
}

/// The mathematical value of a [`ServerInfo`].
pub struct ServerInfoView {
    pub onion_address: Seq<char>,
    pub last_seen: u64,
    pub stale: bool,
}

impl View for ServerInfo {
    type V = ServerInfoView;

    open spec fn view(&self) -> ServerInfoView {
        ServerInfoView {
            onion_address: self.onion_address@,
            last_seen: self.last_seen,
            stale: self.stale,
        }
    }
}

impl ServerInfo {
    /// An exact copy.
    pub fn duplicate(&self) -> (r: ServerInfo)
        ensures
            r@ == self@,
    {
        ServerInfo {
            onion_address: self.onion_address.clone(),
            last_seen: self.last_seen,
            stale: self.stale,
        }
    }
}

/// A request on the directory's inbound queue. `Add` and `Update` are the
/// two writes; they replace the record wholesale. The queries carry no reply
/// channel here: the caller owns the reply path.
pub enum DbRequest {
    /// Insert or replace a record.
    Add(String, ServerInfo),
    /// Same effect as `Add`; signals "update of existing" upstream.
    Update(String, ServerInfo),
    /// Look one record up.
    Query(String),
    /// Snapshot all `(address, record)` pairs, in unspecified order.
    QueryAll,
    /// The addresses of records with `stale == false`, in unspecified order.
    QueryActive,
}

/// The directory's reply to one request.
pub enum DbResponse {
    /// Reply to a write: nothing.
    Done,
    /// Reply to `Query`.
    Record(Option<ServerInfo>),
    /// Reply to `QueryAll`.
    All(Vec<(String, ServerInfo)>),
    /// Reply to `QueryActive`.
    Active(Vec<String>),
}

/// A write carries the record it installs.
pub open spec fn is_write(req: DbRequest) -> bool {
    req is Add || req is Update
}

/// The key a write targets.
pub open spec fn write_key(req: DbRequest) -> Seq<char>
    recommends
        is_write(req),
{
    match req {
        DbRequest::Add(a, _) => a@,
        DbRequest::Update(a, _) => a@,
        _ => Seq::empty(),
    }
}

/// The record a write installs.
pub open spec fn write_rec(req: DbRequest) -> ServerInfoView
    recommends
        is_write(req),
{
    match req {
        DbRequest::Add(_, r) => r@,
        DbRequest::Update(_, r) => r@,
        _ => arbitrary(),
    }
}

/// The canonical-key invariant: a write's key is the record's own address.
pub open spec fn req_canonical(req: DbRequest) -> bool {
    is_write(req) ==> write_key(req) == write_rec(req).onion_address
}

/// The effect of one request on the map: writes insert, queries change
/// nothing.
pub open spec fn spec_apply(m: Map<Seq<char>, ServerInfoView>, req: DbRequest) -> Map<
    Seq<char>,
    ServerInfoView,
> {
    if is_write(req) {
        m.insert(write_key(req), write_rec(req))
    } else {
        m
    }
}

/// Left-to-right application of a request sequence.
pub open spec fn spec_apply_ops(m: Map<Seq<char>, ServerInfoView>, ops: Seq<DbRequest>) -> Map<
    Seq<char>,
    ServerInfoView,
>
    decreases ops.len(),
{
    if ops.len() == 0 {
        m
    } else {
        spec_apply(spec_apply_ops(m, ops.drop_last()), ops.last())
    }
}

/// The record installed by the last write to `k` in `ops`, if any.
pub open spec fn spec_last_write(ops: Seq<DbRequest>, k: Seq<char>) -> Option<ServerInfoView>
    decreases ops.len(),
{
    if ops.len() == 0 {
        None
    } else if is_write(ops.last()) && write_key(ops.last()) == k {
        Some(write_rec(ops.last()))
    } else {
        spec_last_write(ops.drop_last(), k)
    }
}

/// Applying a sequence of requests left to right is last-writer-wins per
/// key: a key's final record is the one installed by the last write to it,
/// or its initial record if no write touched it.
pub proof fn lemma_last_writer_wins(
    m: Map<Seq<char>, ServerInfoView>,
    ops: Seq<DbRequest>,
    k: Seq<char>,
)
    ensures
        match spec_last_write(ops, k) {
            Some(v) => spec_apply_ops(m, ops).dom().contains(k) && spec_apply_ops(m, ops)[k] == v,
            None => (spec_apply_ops(m, ops).dom().contains(k) <==> m.dom().contains(k))
                && (m.dom().contains(k) ==> spec_apply_ops(m, ops)[k] == m[k]),
        },
    decreases ops.len(),
{
    if ops.len() > 0 {
        lemma_last_writer_wins(m, ops.drop_last(), k);
    }
}

/// A write preserves `last_seen` at its key: the record it installs is no
/// older than the one it replaces.
pub open spec fn write_preserves_last_seen(
    m: Map<Seq<char>, ServerInfoView>,
    req: DbRequest,
) -> bool {
    is_write(req) && m.dom().contains(write_key(req)) ==> write_rec(req).last_seen
        >= m[write_key(req)].last_seen
}

/// `last_seen` never decreases over a record's lifetime: if every request is
/// applied only when it preserves `last_seen` against the state it meets,
/// then a present key stays present and its timestamp never moves backwards.
pub proof fn lemma_last_seen_monotonic(
    m: Map<Seq<char>, ServerInfoView>,
    ops: Seq<DbRequest>,
    k: Seq<char>,
)
    requires
        forall|i: int|
            0 <= i < ops.len() ==> write_preserves_last_seen(
                spec_apply_ops(m, ops.take(i)),
                #[trigger] ops[i],
            ),
        m.dom().contains(k),
    ensures
        spec_apply_ops(m, ops).dom().contains(k),
        spec_apply_ops(m, ops)[k].last_seen >= m[k].last_seen,
    decreases ops.len(),
{
    if ops.len() > 0 {
        let prefix = ops.drop_last();
        assert forall|i: int| 0 <= i < prefix.len() implies write_preserves_last_seen(
            spec_apply_ops(m, prefix.take(i)),
            #[trigger] prefix[i],
        ) by {
            assert(prefix.take(i) =~= ops.take(i));
            assert(prefix[i] == ops[i]);
        }
        lemma_last_seen_monotonic(m, prefix, k);
        assert(ops.take(ops.len() - 1) =~= prefix);
        assert(write_preserves_last_seen(spec_apply_ops(m, prefix), ops.last()));
    }
}

/// The map described by a key/record sequence, later entries overriding
/// earlier ones.
pub open spec fn entries_map(s: Seq<(String, ServerInfo)>) -> Map<Seq<char>, ServerInfoView>
    decreases s.len(),
{
    if s.len() == 0 {
        Map::empty()
    } else {
        entries_map(s.drop_last()).insert(s.last().0@, s.last().1@)
    }
}

/// A key is in the map exactly when some entry carries it.
proof fn lemma_entries_map_dom(s: Seq<(String, ServerInfo)>)
    ensures
        forall|k: Seq<char>|
            #[trigger] entries_map(s).dom().contains(k) <==> exists|i: int|
                0 <= i < s.len() && (#[trigger] s[i]).0@ == k,
    decreases s.len(),
{
    if s.len() > 0 {
        let t = s.drop_last();
        lemma_entries_map_dom(t);
        assert forall|k: Seq<char>| #[trigger] entries_map(s).dom().contains(k) implies exists|
            i: int,
        | 0 <= i < s.len() && (#[trigger] s[i]).0@ == k by {
            if k == s.last().0@ {
                assert((s[s.len() - 1]).0@ == k);
            } else {
                assert(entries_map(t).dom().contains(k));
                let i = choose|i: int| 0 <= i < t.len() && (#[trigger] t[i]).0@ == k;
                assert(t[i] == s[i]);
                assert((s[i]).0@ == k);
            }
        }
        assert forall|k: Seq<char>|
            (exists|i: int| 0 <= i < s.len() && (#[trigger] s[i]).0@ == k) implies #[trigger] entries_map(
            s,
        ).dom().contains(k) by {
            let i = choose|i: int| 0 <= i < s.len() && (#[trigger] s[i]).0@ == k;
            if i < s.len() - 1 {
                assert(t[i] == s[i]);
                assert((t[i]).0@ == k);
                assert(entries_map(t).dom().contains(k));
            }
        }
    }
}

/// No two entries share a key.
pub open spec fn distinct_keys(s: Seq<(String, ServerInfo)>) -> bool {
    forall|i: int, j: int| 0 <= i < j < s.len() ==> (#[trigger] s[i]).0@ != (#[trigger] s[j]).0@
}

/// With distinct keys, the map's value at an entry's key is that entry's
/// record.
proof fn lemma_entries_map_value(s: Seq<(String, ServerInfo)>, i: int)
    requires
        distinct_keys(s),
        0 <= i < s.len(),
    ensures
        entries_map(s).dom().contains(s[i].0@),
        entries_map(s)[s[i].0@] == s[i].1@,
    decreases s.len(),
{
    if i < s.len() - 1 {
        assert(distinct_keys(s.drop_last()));
        assert(s.drop_last()[i] == s[i]);
        lemma_entries_map_value(s.drop_last(), i);
        assert(s.last().0@ != s[i].0@);
    }
}

/// Replacing the entry that carries a key updates the map at that key.
proof fn lemma_entries_map_update(s: Seq<(String, ServerInfo)>, i: int, e: (String, ServerInfo))
    requires
        distinct_keys(s),
        0 <= i < s.len(),
        s[i].0@ == e.0@,
    ensures
        entries_map(s.update(i, e)) =~= entries_map(s).insert(e.0@, e.1@),
    decreases s.len(),
{
    if i == s.len() - 1 {
        assert(s.update(i, e).drop_last() =~= s.drop_last());
        assert(s.update(i, e).last() == e);
    } else {
        assert(s.update(i, e).drop_last() =~= s.drop_last().update(i, e));
        assert(s.update(i, e).last() == s.last());
        assert(distinct_keys(s.drop_last()));
        assert(s.drop_last()[i] == s[i]);
        lemma_entries_map_update(s.drop_last(), i, e);
        assert(s.last().0@ != e.0@);
        assert(entries_map(s.drop_last()).insert(e.0@, e.1@).insert(s.last().0@, s.last().1@)
            =~= entries_map(s.drop_last()).insert(s.last().0@, s.last().1@).insert(e.0@, e.1@));
    }
}

/// What a `QueryAll` snapshot promises against map `m`: every pair is in
/// the map, every key of the map appears, and no key appears twice.
pub open spec fn all_snapshot_ok(
    m: Map<Seq<char>, ServerInfoView>,
    v: Seq<(String, ServerInfo)>,
) -> bool {
    &&& forall|i: int|
        0 <= i < v.len() ==> m.dom().contains((#[trigger] v[i]).0@) && m[v[i].0@] == v[i].1@
    &&& forall|k: Seq<char>|
        #[trigger] m.dom().contains(k) ==> exists|i: int| 0 <= i < v.len() && (#[trigger] v[i]).0@
            == k
    &&& forall|i: int, j: int| 0 <= i < j < v.len() ==> (#[trigger] v[i]).0@ != (#[trigger] v[j]).0@
}

/// What a `QueryActive` snapshot promises against map `m`: exactly the keys
/// of non-stale records, each once.
pub open spec fn active_snapshot_ok(m: Map<Seq<char>, ServerInfoView>, v: Seq<String>) -> bool {
    &&& forall|i: int|
        0 <= i < v.len() ==> m.dom().contains((#[trigger] v[i])@) && !m[v[i]@].stale
    &&& forall|k: Seq<char>|
        #[trigger] m.dom().contains(k) && !m[k].stale ==> exists|i: int|
            0 <= i < v.len() && (#[trigger] v[i])@ == k
    &&& forall|i: int, j: int| 0 <= i < j < v.len() ==> (#[trigger] v[i])@ != (#[trigger] v[j])@
}

/// The directory store.
pub struct Directory {
    entries: Vec<(String, ServerInfo)>,
}

impl View for Directory {
    type V = Map<Seq<char>, ServerInfoView>;

    closed spec fn view(&self) -> Map<Seq<char>, ServerInfoView> {
        entries_map(self.entries@)
    }
}

impl Directory {
    /// Internal well-formedness: one entry per key.
    pub closed spec fn wf(&self) -> bool {
        distinct_keys(self.entries@)
    }

    /// An empty directory.
    pub fn new() -> (r: Directory)
        ensures
            r.wf(),
            r@ =~= Map::<Seq<char>, ServerInfoView>::empty(),
    {
        Directory { entries: Vec::new() }
    }

    /// Insert or replace: the record for `addr` becomes `info`, wholesale.
    pub fn insert(&mut self, addr: String, info: ServerInfo)
        requires
            old(self).wf(),
        ensures
            final(self).wf(),
            final(self)@ =~= old(self)@.insert(addr@, info@),
    {
        let ghost s0 = self.entries@;
        proof {
            lemma_entries_map_dom(s0);
        }
        let n = self.entries.len();
        let mut i: usize = 0;
        while i < n
            invariant
                0 <= i <= n,
                n == self.entries@.len(),
                self.entries@ == s0,
                s0 == old(self).entries@,
                distinct_keys(s0),
                forall|j: int| 0 <= j < i ==> (#[trigger] s0[j]).0@ != addr@,
            decreases n - i,
        {
            if crate::text::str_eq(self.entries[i].0.as_str(), addr.as_str()) {
                let e: (String, ServerInfo) = (addr, info);
                let ghost ge = e;
                proof {
                    lemma_entries_map_update(s0, i as int, ge);
                }
                self.entries[i] = e;
                proof {
                    assert(self.entries@ =~= s0.update(i as int, ge));
                    assert(entries_map(self.entries@) == entries_map(s0.update(i as int, ge)));
                    assert(entries_map(self.entries@) =~= entries_map(s0).insert(addr@, info@));
                    assert(self@ =~= old(self)@.insert(addr@, info@));
                    assert forall|p: int, q: int|
                        0 <= p < q < self.entries@.len() implies (#[trigger] self.entries@[p]).0@
                        != (#[trigger] self.entries@[q]).0@ by {
                        assert(s0[p].0@ != s0[q].0@);
                        if p == i {
                            assert(self.entries@[p].0@ == s0[p].0@);
                        } else if q == i {
                            assert(self.entries@[q].0@ == s0[q].0@);
                        }
                    }
                }
                return ;
            }
            i = i + 1;
        }
        proof {
            assert(forall|j: int| 0 <= j < s0.len() ==> (#[trigger] s0[j]).0@ != addr@);
        }
        let e: (String, ServerInfo) = (addr, info);
        self.entries.push(e);
        proof {
            assert(self.entries@.drop_last() =~= s0);
            assert(self.entries@.last() == e);
            assert forall|p: int, q: int|
                0 <= p < q < self.entries@.len() implies (#[trigger] self.entries@[p]).0@
                != (#[trigger] self.entries@[q]).0@ by {
                if q < self.entries@.len() - 1 {
                    assert(s0[p].0@ != s0[q].0@);
                } else {
                    assert(s0[p].0@ != addr@);
                }
            }
        }
    }

    /// A copy of the record under `addr`, if present.
    pub fn query(&self, addr: &String) -> (r: Option<ServerInfo>)
        requires
            self.wf(),
        ensures
            r is Some <==> self@.dom().contains(addr@),
            r matches Some(info) ==> info@ == self@[addr@],
    {
        let ghost s0 = self.entries@;
        proof {
            lemma_entries_map_dom(s0);
        }
        let n = self.entries.len();
        let mut i: usize = 0;
        while i < n
            invariant
                0 <= i <= n,
                n == self.entries@.len(),
                self.entries@ == s0,
                distinct_keys(s0),
                forall|j: int| 0 <= j < i ==> (#[trigger] s0[j]).0@ != addr@,
            decreases n - i,
        {
            if crate::text::str_eq(self.entries[i].0.as_str(), addr.as_str()) {
                proof {
                    lemma_entries_map_value(s0, i as int);
                }
                return Some(self.entries[i].1.duplicate());
            }
            i = i + 1;
        }
        None
    }

    /// A snapshot of all `(address, record)` pairs. The order is
    /// unspecified; the pairs are exactly the map's, each key once.
    pub fn query_all(&self) -> (r: Vec<(String, ServerInfo)>)
        requires
            self.wf(),
        ensures
            all_snapshot_ok(self@, r@),
    {
        let ghost s0 = self.entries@;
        proof {
            lemma_entries_map_dom(s0);
        }
        let n = self.entries.len();
        let mut out: Vec<(String, ServerInfo)> = Vec::new();
        let mut i: usize = 0;
        while i < n
            invariant
                0 <= i <= n,
                n == self.entries@.len(),
                self.entries@ == s0,
                distinct_keys(s0),
                self@ == entries_map(s0),
                out@.len() == i,
                forall|j: int| 0 <= j < i ==> (#[trigger] out@[j]).0@ == s0[j].0@ && out@[j].1@
                    == s0[j].1@,
            decreases n - i,
        {
            proof {
                lemma_entries_map_value(s0, i as int);
            }
            out.push((self.entries[i].0.clone(), self.entries[i].1.duplicate()));
            i = i + 1;
        }
        proof {
            assert forall|k: Seq<char>| #[trigger] self@.dom().contains(k) implies exists|i: int|
                0 <= i < out@.len() && (#[trigger] out@[i]).0@ == k by {
                let j = choose|j: int| 0 <= j < s0.len() && (#[trigger] s0[j]).0@ == k;
                assert((out@[j]).0@ == k);
            }
            assert forall|i: int|
                0 <= i < out@.len() implies self@.dom().contains((#[trigger] out@[i]).0@)
                && self@[out@[i].0@] == out@[i].1@ by {
                lemma_entries_map_value(s0, i);
            }
            assert forall|i: int, j: int|
                0 <= i < j < out@.len() implies (#[trigger] out@[i]).0@
                != (#[trigger] out@[j]).0@ by {
                assert(s0[i].0@ != s0[j].0@);
            }
        }
        out
    }

    /// The addresses whose records are not stale. The order is unspecified;
    /// each qualifying address appears exactly once.
    pub fn query_active(&self) -> (r: Vec<String>)
        requires
            self.wf(),
        ensures
            active_snapshot_ok(self@, r@),
    {
        let ghost s0 = self.entries@;
        proof {
            lemma_entries_map_dom(s0);
        }
        let n = self.entries.len();
        let mut out: Vec<String> = Vec::new();
        let mut i: usize = 0;
        while i < n
            invariant
                0 <= i <= n,
                n == self.entries@.len(),
                self.entries@ == s0,
                distinct_keys(s0),
                self@ == entries_map(s0),
                forall|j: int|
                    0 <= j < out@.len() ==> self@.dom().contains((#[trigger] out@[j])@)
                        && !self@[out@[j]@].stale,
                forall|j: int|
                    0 <= j < i && !s0[j].1@.stale ==> exists|p: int|
                        0 <= p < out@.len() && (#[trigger] out@[p])@ == (#[trigger] s0[j]).0@,
                forall|p: int, q: int|
                    0 <= p < q < out@.len() ==> (#[trigger] out@[p])@ != (#[trigger] out@[q])@,
                forall|p: int|
                    0 <= p < out@.len() ==> exists|j: int|
                        0 <= j < i && (#[trigger] out@[p])@ == (#[trigger] s0[j]).0@,
            decreases n - i,
        {
            proof {
                lemma_entries_map_value(s0, i as int);
            }
            let ghost out0 = out@;
            if !self.entries[i].1.stale {
                out.push(self.entries[i].0.clone());
                proof {
                    assert(out@.drop_last() =~= out0);
                    assert((out@.last())@ == (s0[i as int]).0@);
                    assert forall|p: int, q: int|
                        0 <= p < q < out@.len() implies (#[trigger] out@[p])@
                        != (#[trigger] out@[q])@ by {
                        if q < out@.len() - 1 {
                            assert(out0[p]@ != out0[q]@);
                        } else {
                            let j = choose|j: int|
                                0 <= j < i && (#[trigger] out0[p])@ == (#[trigger] s0[j]).0@;
                            assert(s0[j].0@ != s0[i as int].0@);
                        }
                    }
                }
            }
            i = i + 1;
            proof {
                assert forall|j: int|
                    0 <= j < i && !s0[j].1@.stale implies exists|p: int|
                    0 <= p < out@.len() && (#[trigger] out@[p])@ == (#[trigger] s0[j]).0@ by {
                    if j < i - 1 {
                        let p = choose|p: int|
                            0 <= p < out0.len() && (#[trigger] out0[p])@ == (#[trigger] s0[j]).0@;
                        assert((out@[p])@ == s0[j].0@);
                    } else {
                        assert((out@[out@.len() - 1])@ == s0[j].0@);
                    }
                }
            }
        }
        proof {
            assert forall|k: Seq<char>|
                #[trigger] self@.dom().contains(k) && !self@[k].stale implies exists|i: int|
                0 <= i < out@.len() && (#[trigger] out@[i])@ == k by {
                let j = choose|j: int| 0 <= j < s0.len() && (#[trigger] s0[j]).0@ == k;
                lemma_entries_map_value(s0, j);
                assert(!s0[j].1@.stale);
            }
        }
        out
    }

    /// Serves one request: writes mutate the map, queries leave it as it
    /// was and return what the matching query method returns.
    pub fn handle_request(&mut self, req: DbRequest) -> (r: DbResponse)
        requires
            old(self).wf(),
        ensures
            final(self).wf(),
            final(self)@ =~= spec_apply(old(self)@, req),
            is_write(req) ==> r is Done,
            req matches DbRequest::Query(a) ==> (r matches DbResponse::Record(o) && (o is Some
                <==> old(self)@.dom().contains(a@)) && (o matches Some(info) ==> info@ == old(
                self,
            )@[a@])),
            req is QueryAll ==> (r matches DbResponse::All(v) && all_snapshot_ok(
                old(self)@,
                v@,
            )),
            req is QueryActive ==> (r matches DbResponse::Active(v) && active_snapshot_ok(
                old(self)@,
                v@,
            )),
    {
        match req {
            DbRequest::Add(addr, info) => {
                self.insert(addr, info);
                DbResponse::Done
            },
            DbRequest::Update(addr, info) => {
                self.insert(addr, info);
                DbResponse::Done
            },
            DbRequest::Query(addr) => {
                let o = self.query(&addr);
                DbResponse::Record(o)
            },
            DbRequest::QueryAll => {
                let v = self.query_all();
                proof {
                    assert(self@ == old(self)@);
                }
                DbResponse::All(v)
            },
            DbRequest::QueryActive => {
                let v = self.query_active();
                proof {
                    assert(self@ == old(self)@);
                }
                DbResponse::Active(v)
            },
        }
    }
}

} // verus!
