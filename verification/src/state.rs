//! The persisted workflow state machine. The wizard walks a linear sequence
//! of steps — choose a wallet, await a funding deposit, create the token —
//! and records its progress in a small flat record so that an interrupted run
//! resumes where it left off. Fields are populated monotonically as the step
//! advances and are never cleared once set.

use vstd::prelude::*;

verus! {

/// The wizard's position in the linear workflow.
#[derive(Clone, Copy, Debug, PartialEq, Eq, Structural)]
pub enum Step {
    Start,
    AwaitDeposit,
    CreateToken,
    Done,
}

/// How far along the workflow a step is; transitions only ever increase it.
pub open spec fn step_rank(s: Step) -> int {
    match s {
        Step::Start => 0,
        Step::AwaitDeposit => 1,
        Step::CreateToken => 2,
        Step::Done => 3,
    }
}

/// A byte string that can stand on one line of the persisted record.
pub open spec fn line_safe(v: Seq<u8>) -> bool {
    forall|i: int| 0 <= i < v.len() ==> v[i] != 10u8
}

/// A field value that can stand on one line of the persisted record.
pub open spec fn opt_line_safe(o: Option<Seq<u8>>) -> bool {
    match o {
        Option::None => true,
        Option::Some(v) => line_safe(v),
    }
}

/// The mathematical model of a workflow record: the step together with the
/// byte strings of the optional fields.
pub ghost struct StateModel {
    pub step: Step,
    pub pubkey: Option<Seq<u8>>,
    pub token_name: Option<Seq<u8>>,
    pub token_symbol: Option<Seq<u8>>,
    pub token_address: Option<Seq<u8>>,
    pub account_address: Option<Seq<u8>>,
}

impl StateModel {
    /// Well-formedness: every field fits on one line of the record, and the
    /// fields a completed step would have filled are indeed filled — the
    /// wallet key from the deposit wait onward, everything once done.
    pub open spec fn wf(self) -> bool {
        &&& opt_line_safe(self.pubkey)
        &&& opt_line_safe(self.token_name)
        &&& opt_line_safe(self.token_symbol)
        &&& opt_line_safe(self.token_address)
        &&& opt_line_safe(self.account_address)
        &&& (step_rank(self.step) >= 1 ==> self.pubkey is Some)
        &&& (step_rank(self.step) >= 3 ==> {
            &&& self.token_name is Some
            &&& self.token_symbol is Some
            &&& self.token_address is Some
            &&& self.account_address is Some
        })
    }
}

/// The record the wizard persists across runs. Addresses and names are held
/// as the byte strings the surrounding tools produced and consume.
#[derive(Clone, Debug, PartialEq, Eq)]
pub struct WorkflowState {
    pub step: Step,
    pub pubkey: Option<Vec<u8>>,
    pub token_name: Option<Vec<u8>>,
    pub token_symbol: Option<Vec<u8>>,
    pub token_address: Option<Vec<u8>>,
    pub account_address: Option<Vec<u8>>,
}

impl View for WorkflowState {
    type V = StateModel;

    open spec fn view(&self) -> StateModel {
        StateModel {
            step: self.step,
            pubkey: self.pubkey.deep_view(),
            token_name: self.token_name.deep_view(),
            token_symbol: self.token_symbol.deep_view(),
            token_address: self.token_address.deep_view(),
            account_address: self.account_address.deep_view(),
        }
    }
}

impl WorkflowState {
    /// Well-formedness of the record, stated on its model.
    pub open spec fn wf(self) -> bool {
        self@.wf()
    }

    /// The state a fresh run begins in when no record was ever written:
    /// at the first step with every optional field unset.
    pub fn initial() -> (s: WorkflowState)
        ensures
            s.step == Step::Start,
            s.pubkey is None,
            s.token_name is None,
            s.token_symbol is None,
            s.token_address is None,
            s.account_address is None,
            s.wf(),
    {
        WorkflowState {
            step: Step::Start,
            pubkey: None,
            token_name: None,
            token_symbol: None,
            token_address: None,
            account_address: None,
        }
    }

    /// A wallet was chosen (newly created or supplied by the user): record
    /// its public key and advance to waiting for the funding deposit. No
    /// other field changes.
    pub fn set_wallet(&mut self, pubkey: Vec<u8>)
        requires
            old(self).step == Step::Start,
            old(self).wf(),
            line_safe(pubkey@),
        ensures
            final(self).step == Step::AwaitDeposit,
            final(self).pubkey == Some(pubkey),
            final(self).token_name == old(self).token_name,
            final(self).token_symbol == old(self).token_symbol,
            final(self).token_address == old(self).token_address,
            final(self).account_address == old(self).account_address,
            final(self).wf(),
    {
        self.pubkey = Some(pubkey);
        self.step = Step::AwaitDeposit;
    }

    /// The watcher saw the wallet funded: advance to token creation. No
    /// field changes; the caller persists the record right after this.
    pub fn confirm_deposit(&mut self)
        requires
            old(self).step == Step::AwaitDeposit,
            old(self).wf(),
        ensures
            final(self).step == Step::CreateToken,
            final(self).pubkey == old(self).pubkey,
            final(self).token_name == old(self).token_name,
            final(self).token_symbol == old(self).token_symbol,
            final(self).token_address == old(self).token_address,
            final(self).account_address == old(self).account_address,
            final(self).wf(),
    {
        self.step = Step::CreateToken;
    }

    /// The token, its account and its mint all succeeded: record what was
    /// created and finish. The wallet key is kept unchanged.
    pub fn complete_token(
        &mut self,
        token_name: Vec<u8>,
        token_symbol: Vec<u8>,
        token_address: Vec<u8>,
        account_address: Vec<u8>,
    )
        requires
            old(self).step == Step::CreateToken,
            old(self).wf(),
            line_safe(token_name@),
            line_safe(token_symbol@),
            line_safe(token_address@),
            line_safe(account_address@),
        ensures
            final(self).step == Step::Done,
            final(self).pubkey == old(self).pubkey,
            final(self).token_name == Some(token_name),
            final(self).token_symbol == Some(token_symbol),
            final(self).token_address == Some(token_address),
            final(self).account_address == Some(account_address),
            final(self).wf(),
    {
        self.token_name = Some(token_name);
        self.token_symbol = Some(token_symbol);
        self.token_address = Some(token_address);
        self.account_address = Some(account_address);
        self.step = Step::Done;
    }
}

} // verus!
