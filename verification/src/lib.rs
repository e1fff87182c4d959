//! Core logic of a command-line wallet/token wizard: the persisted workflow
//! state machine that drives it, the deposit watcher's threshold rule, the
//! derivation of transaction records from ledger balance arrays, and the
//! parsers for the text that the external wallet/token commands print.

mod codec;
mod command_output;
mod deposit;
mod ledger;
mod metadata;
mod state;

pub use codec::encode_state;
pub use codec::lemma_record_determines_state;
pub use codec::parse_state;
pub use codec::spec_encode;
pub use codec::CodecError;
pub use command_output::parse_account_address;
pub use command_output::parse_token_address;
pub use command_output::parse_wallet_pubkey;
pub use command_output::ParseError;
pub use deposit::deposit_met;
pub use deposit::polls_until_funded;
pub use deposit::MIN_DEPOSIT_BASE_UNITS;
pub use ledger::derive_record;
pub use ledger::net_first_slot;
pub use ledger::split_native_units;
pub use ledger::TransactionRecord;
pub use ledger::TxDetail;
pub use ledger::BASE_UNITS_PER_NATIVE;
pub use metadata::MetadataParams;
pub use state::line_safe;
pub use state::step_rank;
pub use state::StateModel;
pub use state::Step;
pub use state::WorkflowState;
