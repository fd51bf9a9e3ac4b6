use vstd::prelude::*;
use crate::registry::RegistryError;

verus! {

/// Where a voice registration stands. The caller holds the voice table
/// exclusively from the check to the end, so no other registration runs between.
#[derive(Debug, Clone, Copy, PartialEq, Eq, Structural)]
pub enum RegisterState {
    /// The id is being checked against the token file, the index and the table.
    Checking,
    /// The token file is being written.
    WritingTokens,
    /// The index document is being written.
    WritingIndex,
    /// The index write failed; the token file is being removed again.
    RemovingTokens,
    /// Nothing is left to do.
    Finished,
}

/// What the caller reports back after doing the last action.
#[derive(Debug, Clone, Copy, PartialEq, Eq, Structural)]
pub enum RegisterEvent {
    /// The id was looked up; `duplicate` when the token file, the index or the
    /// table already has it.
    Checked { duplicate: bool },
    TokensWritten { ok: bool },
    IndexWritten { ok: bool },
    TokensRemoved,
}

/// What the caller does next.
#[derive(Debug, Clone, Copy, PartialEq, Eq, Structural)]
pub enum RegisterAction {
    WriteTokenFile,
    WriteIndex,
    RemoveTokenFile,
    /// Insert the voice into the table, then answer that it succeeded.
    InsertAndReply,
    /// Answer with this failure; nothing of the voice is left anywhere.
    Fail(RegistryError),
    /// The event does not belong to this state: nothing to do.
    Wait,
}

/// One step of a registration.
pub open spec fn register_next(s: RegisterState, e: RegisterEvent) -> (RegisterState, RegisterAction) {
    match (s, e) {
        (RegisterState::Checking, RegisterEvent::Checked { duplicate }) => if duplicate {
            (RegisterState::Finished, RegisterAction::Fail(RegistryError::DuplicateVoice))
        } else {
            (RegisterState::WritingTokens, RegisterAction::WriteTokenFile)
        },
        (RegisterState::WritingTokens, RegisterEvent::TokensWritten { ok }) => if ok {
            (RegisterState::WritingIndex, RegisterAction::WriteIndex)
        } else {
            (RegisterState::Finished, RegisterAction::Fail(RegistryError::Io))
        },
        (RegisterState::WritingIndex, RegisterEvent::IndexWritten { ok }) => if ok {
            (RegisterState::Finished, RegisterAction::InsertAndReply)
        } else {
            (RegisterState::RemovingTokens, RegisterAction::RemoveTokenFile)
        },
        (RegisterState::RemovingTokens, RegisterEvent::TokensRemoved) => (
            RegisterState::Finished,
            RegisterAction::Fail(RegistryError::Io),
        ),
        _ => (s, RegisterAction::Wait),
    }
}

/// Decides the next action of a registration from its state and the last event.
pub fn register_step(s: RegisterState, e: RegisterEvent) -> (r: (RegisterState, RegisterAction))
    ensures
        r == register_next(s, e),
{
    match (s, e) {
        (RegisterState::Checking, RegisterEvent::Checked { duplicate }) => if duplicate {
            (RegisterState::Finished, RegisterAction::Fail(RegistryError::DuplicateVoice))
        } else {
            (RegisterState::WritingTokens, RegisterAction::WriteTokenFile)
        },
        (RegisterState::WritingTokens, RegisterEvent::TokensWritten { ok }) => if ok {
            (RegisterState::WritingIndex, RegisterAction::WriteIndex)
        } else {
            (RegisterState::Finished, RegisterAction::Fail(RegistryError::Io))
        },
        (RegisterState::WritingIndex, RegisterEvent::IndexWritten { ok }) => if ok {
            (RegisterState::Finished, RegisterAction::InsertAndReply)
        } else {
            (RegisterState::RemovingTokens, RegisterAction::RemoveTokenFile)
        },
        (RegisterState::RemovingTokens, RegisterEvent::TokensRemoved) => (
            RegisterState::Finished,
            RegisterAction::Fail(RegistryError::Io),
        ),
        _ => (s, RegisterAction::Wait),
    }
}

/// The actions of a registration fed these events, from state `s`.
pub open spec fn register_actions(s: RegisterState, events: Seq<RegisterEvent>) -> Seq<
    RegisterAction,
>
    decreases events.len(),
{
    if events.len() == 0 {
        Seq::empty()
    } else {
        let (t, a) = register_next(s, events[0]);
        seq![a] + register_actions(t, events.drop_first())
    }
}

/// The state a registration reaches after these events.
pub open spec fn register_final(s: RegisterState, events: Seq<RegisterEvent>) -> RegisterState
    decreases events.len(),
{
    if events.len() == 0 {
        s
    } else {
        register_final(register_next(s, events[0]).0, events.drop_first())
    }
}

pub open spec fn touches_disk(a: RegisterAction) -> bool {
    a == RegisterAction::WriteTokenFile || a == RegisterAction::WriteIndex || a
        == RegisterAction::RemoveTokenFile || a == RegisterAction::InsertAndReply
}

proof fn lemma_finished_is_quiet(events: Seq<RegisterEvent>)
    ensures
        forall|i: int|
            0 <= i < register_actions(RegisterState::Finished, events).len() ==> #[trigger] register_actions(
                RegisterState::Finished,
                events,
            )[i] == RegisterAction::Wait,
        register_actions(RegisterState::Finished, events).len() == events.len(),
    decreases events.len(),
{
    if events.len() > 0 {
        lemma_finished_is_quiet(events.drop_first());
    }
}

/// A registration whose id is taken fails as a duplicate and writes, removes or
/// inserts nothing, whatever is reported to it afterwards.
pub proof fn lemma_duplicate_leaves_disk_unchanged(events: Seq<RegisterEvent>)
    requires
        events.len() > 0,
        events[0] == (RegisterEvent::Checked { duplicate: true }),
    ensures
        register_actions(RegisterState::Checking, events)[0] == RegisterAction::Fail(
            RegistryError::DuplicateVoice,
        ),
        forall|i: int|
            0 <= i < register_actions(RegisterState::Checking, events).len() ==> !touches_disk(
                #[trigger] register_actions(RegisterState::Checking, events)[i],
            ),
{
    let rest = events.drop_first();
    lemma_finished_is_quiet(rest);
    let all = register_actions(RegisterState::Checking, events);
    assert(all == seq![RegisterAction::Fail(RegistryError::DuplicateVoice)] + register_actions(
        RegisterState::Finished,
        rest,
    ));
    assert forall|i: int| 0 <= i < all.len() implies !touches_disk(#[trigger] all[i]) by {
        if i > 0 {
            assert(all[i] == register_actions(RegisterState::Finished, rest)[i - 1]);
        }
    }
}

/// What a registration has left behind: the token file, the index entry, the
/// voice in the table.
pub struct Effects {
    pub token_file: bool,
    pub index_entry: bool,
    pub table_entry: bool,
}

/// What one step leaves behind, each action being done as reported.
pub open spec fn effects_next(s: RegisterState, e: RegisterEvent, f: Effects) -> Effects {
    match (s, e) {
        (RegisterState::WritingTokens, RegisterEvent::TokensWritten { ok: true }) => Effects {
            token_file: true,
            ..f
        },
        (RegisterState::WritingIndex, RegisterEvent::IndexWritten { ok: true }) => Effects {
            index_entry: true,
            table_entry: true,
            ..f
        },
        (RegisterState::RemovingTokens, RegisterEvent::TokensRemoved) => Effects {
            token_file: false,
            ..f
        },
        _ => f,
    }
}

pub open spec fn effects_run(s: RegisterState, events: Seq<RegisterEvent>, f: Effects) -> Effects
    decreases events.len(),
{
    if events.len() == 0 {
        f
    } else {
        effects_run(
            register_next(s, events[0]).0,
            events.drop_first(),
            effects_next(s, events[0], f),
        )
    }
}

pub open spec fn nothing_left(f: Effects) -> bool {
    !f.token_file && !f.index_entry && !f.table_entry
}

pub open spec fn all_done(f: Effects) -> bool {
    f.token_file && f.index_entry && f.table_entry
}

/// What may be left behind in each state.
pub open spec fn effects_inv(s: RegisterState, f: Effects) -> bool {
    match s {
        RegisterState::Checking => nothing_left(f),
        RegisterState::WritingTokens => nothing_left(f),
        RegisterState::WritingIndex => f.token_file && !f.index_entry && !f.table_entry,
        RegisterState::RemovingTokens => f.token_file && !f.index_entry && !f.table_entry,
        RegisterState::Finished => nothing_left(f) || all_done(f),
    }
}

proof fn lemma_effects_inv(s: RegisterState, events: Seq<RegisterEvent>, f: Effects)
    requires
        effects_inv(s, f),
    ensures
        effects_inv(register_final(s, events), effects_run(s, events, f)),
    decreases events.len(),
{
    if events.len() > 0 {
        lemma_effects_inv(
            register_next(s, events[0]).0,
            events.drop_first(),
            effects_next(s, events[0], f),
        );
    }
}

/// A registration is all or nothing: once it has finished, either the token
/// file, the index entry and the table entry all exist, or none of them does.
pub proof fn lemma_registration_all_or_nothing(events: Seq<RegisterEvent>)
    requires
        register_final(RegisterState::Checking, events) == RegisterState::Finished,
    ensures
        nothing_left(
            effects_run(
                RegisterState::Checking,
                events,
                Effects { token_file: false, index_entry: false, table_entry: false },
            ),
        ) || all_done(
            effects_run(
                RegisterState::Checking,
                events,
                Effects { token_file: false, index_entry: false, table_entry: false },
            ),
        ),
{
    lemma_effects_inv(
        RegisterState::Checking,
        events,
        Effects { token_file: false, index_entry: false, table_entry: false },
    );
}

} // verus!
