//! Directory/tracker daemon library: a chain indexer that recognises onion
//! announcements in `OP_RETURN` outputs, an in-memory directory of maker
//! records, a liveness-probe policy, a framed CBOR wire codec, and the
//! control-channel grammar for the overlay transport.

mod cbor;
mod config;
mod directory;
mod error;
mod indexer;
mod monitor;
mod onion;
mod server;
mod status;
mod supervisor;
mod text;
mod torctl;
mod wire;

pub use cbor::spec_header;
pub use cbor::spec_parse_header;
pub use cbor::spec_parse_text;
pub use cbor::spec_parse_text_array;
pub use cbor::spec_text;
pub use cbor::spec_text_array;
pub use cbor::spec_blob;
pub use cbor::text_fits;
pub use cbor::blob_fits;
pub use cbor::text_array_fits;
pub use config::is_single_colon;
pub use config::parse_proxy_auth;
pub use config::spec_proxy_split;
pub use directory::active_snapshot_ok;
pub use directory::all_snapshot_ok;
pub use directory::entries_map;
pub use directory::is_write;
pub use directory::lemma_last_seen_monotonic;
pub use directory::lemma_last_writer_wins;
pub use directory::req_canonical;
pub use directory::spec_apply;
pub use directory::spec_apply_ops;
pub use directory::spec_last_write;
pub use directory::write_key;
pub use directory::write_preserves_last_seen;
pub use directory::write_rec;
pub use directory::DbRequest;
pub use directory::DbResponse;
pub use directory::Directory;
pub use directory::ServerInfo;
pub use directory::ServerInfoView;
pub use error::ErrorBranch;
pub use error::TrackerError;
pub use indexer::lemma_announcement_sound;
pub use indexer::lemma_scan_block_sound;
pub use indexer::spec_scan_block;
pub use indexer::spec_tx_onion;
pub use indexer::TxModel;
pub use indexer::TxModelView;
pub use indexer::scan_block;
pub use indexer::scan_transaction;
pub use monitor::spec_pong_update;
pub use monitor::spec_stale_flip;
pub use monitor::ConnectOutcome;
pub use monitor::ProbeAction;
pub use monitor::probe_due;
pub use monitor::probe_step;
pub use monitor::COOLDOWN_SECS;
pub use monitor::PROBE_ATTEMPTS;
pub use onion::extract_onion_address_from_script;
pub use onion::is_digit;
pub use onion::is_onion_host;
pub use onion::spec_digits_value;
pub use onion::spec_extract_onion;
pub use onion::spec_port_digits;
pub use onion::spec_port_value;
pub use onion::spec_pushdata_payload;
pub use onion::valid_onion_record;
pub use onion::valid_onion_split;
pub use onion::valid_port_str;
pub use onion::is_valid_onion_address;
pub use onion::parse_port;
pub use server::ClientAction;
pub use server::dispatch_request;
pub use status::spec_status_ok;
pub use status::Origin;
pub use status::State;
pub use status::Status;
pub use status::handle_error;
pub use status::status_for;
pub use supervisor::spec_supervise;
pub use supervisor::SupervisorAction;
pub use supervisor::supervise;
pub use text::spec_decimal;
pub use text::str_eq;
pub use text::u16_to_string;
pub use torctl::add_onion_cmd;
pub use torctl::contains_seq;
pub use torctl::first_private_key;
pub use torctl::first_service_id;
pub use torctl::lemma_key_file_round_trip;
pub use torctl::spec_decode_key_file;
pub use torctl::spec_key_file;
pub use torctl::spec_line_payload;
pub use torctl::spec_trim;
pub use torctl::starts_with;
pub use torctl::auth_ok;
pub use torctl::authenticate_cmd;
pub use torctl::bootstrap_ready;
pub use torctl::decode_key_file;
pub use torctl::del_onion_cmd;
pub use torctl::encode_key_file;
pub use torctl::getinfo_bootstrap_cmd;
pub use torctl::restored_matches;
pub use torctl::scan_control_reply;
pub use torctl::strip_onion_suffix;
pub use wire::lemma_request_round_trip;
pub use wire::lemma_response_round_trip;
pub use wire::metadata_fits;
pub use wire::request_fits;
pub use wire::response_fits;
pub use wire::spec_decode_request;
pub use wire::spec_decode_response;
pub use wire::spec_encode_metadata;
pub use wire::spec_encode_request;
pub use wire::spec_encode_response;
pub use wire::spec_frame;
pub use wire::decode_request;
pub use wire::decode_response;
pub use wire::encode_request;
pub use wire::encode_response;
pub use wire::frame_message;
pub use wire::parse_frame_length;
pub use wire::DnsMetadata;
pub use wire::DnsMetadataView;
pub use wire::DnsRequestView;
pub use wire::DnsResponseView;
pub use wire::DnsRequest;
pub use wire::DnsResponse;
pub use wire::MAX_MESSAGE_LEN;

