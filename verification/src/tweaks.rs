//! Tweak records and what the engine derives from them: the synthesized
//! child environment and the count of tricks that were actually necessary.
//!
//! A record is fetched fresh per invocation from the lookup collaborator and
//! read-only here. Its settings are tri-state: an absent toggle inserts no
//! variable at all, so the child keeps its runtime's own default.

use crate::envmap::Env;
use crate::envmap::convert_bool;
use vstd::prelude::*;
use vstd::string::*;

verus! {

/// A tri-state compatibility toggle: unset is distinguishable from disabled.
#[derive(Debug, Clone, Copy, PartialEq, Eq, Structural)]
pub enum Toggle {
    Unset,
    Enabled,
    Disabled,
}

/// The named toggles a tweak record can carry.
#[derive(Debug, Clone, Copy, PartialEq, Eq, Structural)]
pub struct Settings {
    /// Whether the game should use the synchronization primitive. Note the
    /// inversion: the synthesized variable's value "1" *disables* it.
    pub esync: Toggle,
    /// Whether the game should use frame synchronization; same inversion.
    pub fsync: Toggle,
}

/// One remediation action of a record, named by its identifier.
pub struct Trick {
    pub id: String,
}

/// A tweak record for one application: its tricks, its toggles, and its raw
/// environment entries.
pub struct TweakRecord {
    pub tricks: Vec<Trick>,
    pub settings: Settings,
    pub env: Env,
}

/// The string a set toggle puts into its variable: enabled means "1"
/// (the "no <primitive>" variable is switched on), disabled means "0".
pub open spec fn toggle_text(t: Toggle) -> Seq<char> {
    if t is Enabled {
        "1"@
    } else {
        "0"@
    }
}

/// The synthesized environment: the record's raw entries, then one variable
/// per toggle that is set. A set toggle therefore overrides a same-named raw
/// entry; an unset toggle inserts nothing.
pub open spec fn synth_env(base: Map<Seq<char>, Seq<char>>, s: Settings) -> Map<
    Seq<char>,
    Seq<char>,
> {
    let with_esync = if s.esync is Unset {
        base
    } else {
        base.insert("PROTON_NO_ESYNC"@, toggle_text(s.esync))
    };
    if s.fsync is Unset {
        with_esync
    } else {
        with_esync.insert("PROTON_NO_FSYNC"@, toggle_text(s.fsync))
    }
}

impl TweakRecord {
    /// Tricks are only worth applying when the record has any.
    pub fn has_tricks(&self) -> (r: bool)
        ensures
            r == (self.tricks@.len() > 0),
    {
        self.tricks.len() > 0
    }
}

/// Builds the environment for the child process from a tweak record: a copy
/// of the raw entries, with the set toggles' variables inserted after them.
pub fn synthesize(record: &TweakRecord) -> (r: Env)
    ensures
        r@ == synth_env(record.env@, record.settings),
{
    let mut env = clone_env(&record.env);
    match record.settings.esync {
        Toggle::Enabled => env.insert(
            String::from_str("PROTON_NO_ESYNC"),
            String::from_str("1"),
        ),
        Toggle::Disabled => env.insert(
            String::from_str("PROTON_NO_ESYNC"),
            String::from_str("0"),
        ),
        Toggle::Unset => (),
    }
    match record.settings.fsync {
        Toggle::Enabled => env.insert(String::from_str("PROTON_NO_FSYNC"), convert_bool(true)),
        Toggle::Disabled => env.insert(String::from_str("PROTON_NO_FSYNC"), convert_bool(false)),
        Toggle::Unset => (),
    }
    env
}

/// A copy of an environment, entry for entry.
fn clone_env(env: &Env) -> (r: Env)
    ensures
        r@ == env@,
        r.spec_pairs() == env.spec_pairs(),
{
    let mut pairs: Vec<(String, String)> = Vec::new();
    let mut i: usize = 0;
    while i < env.pairs.len()
        invariant
            i <= env.pairs@.len(),
            pairs@.len() == i,
            forall|j: int| 0 <= j < i ==> pairs@[j] == env.pairs@[j],
        decreases env.pairs@.len() - i,
    {
        let name = env.pairs[i].0.clone();
        let value = env.pairs[i].1.clone();
        pairs.push((name, value));
        i += 1;
    }
    let r = Env { pairs };
    proof {
        assert(r.pairs@ =~= env.pairs@);
    }
    r
}

/// The synthesizer's toggle-to-variable law: a set synchronization toggle
/// becomes `PROTON_NO_ESYNC` with the inverted value ("use the primitive"
/// writes "1", which disables the "no esync" default), a set frame-sync
/// toggle becomes `PROTON_NO_FSYNC` the same way, and an unset toggle leaves
/// its variable exactly as the raw entries had it.
pub proof fn lemma_synthesizer_inversion(base: Map<Seq<char>, Seq<char>>, s: Settings)
    ensures
        s.esync is Enabled ==> synth_env(base, s).contains_key("PROTON_NO_ESYNC"@) && synth_env(
            base,
            s,
        )["PROTON_NO_ESYNC"@] == "1"@,
        s.esync is Disabled ==> synth_env(base, s).contains_key("PROTON_NO_ESYNC"@) && synth_env(
            base,
            s,
        )["PROTON_NO_ESYNC"@] == "0"@,
        s.esync is Unset ==> (synth_env(base, s).contains_key("PROTON_NO_ESYNC"@)
            == base.contains_key("PROTON_NO_ESYNC"@)) && (base.contains_key("PROTON_NO_ESYNC"@)
            ==> synth_env(base, s)["PROTON_NO_ESYNC"@] == base["PROTON_NO_ESYNC"@]),
        s.fsync is Enabled ==> synth_env(base, s).contains_key("PROTON_NO_FSYNC"@) && synth_env(
            base,
            s,
        )["PROTON_NO_FSYNC"@] == "1"@,
        s.fsync is Disabled ==> synth_env(base, s).contains_key("PROTON_NO_FSYNC"@) && synth_env(
            base,
            s,
        )["PROTON_NO_FSYNC"@] == "0"@,
        s.fsync is Unset ==> (synth_env(base, s).contains_key("PROTON_NO_FSYNC"@)
            == base.contains_key("PROTON_NO_FSYNC"@)) && (base.contains_key("PROTON_NO_FSYNC"@)
            ==> synth_env(base, s)["PROTON_NO_FSYNC"@] == base["PROTON_NO_FSYNC"@]),
    {
    reveal_strlit("PROTON_NO_ESYNC");
    reveal_strlit("PROTON_NO_FSYNC");
    assert("PROTON_NO_ESYNC"@[10] == 'E');
    assert("PROTON_NO_FSYNC"@[10] == 'F');
    assert("PROTON_NO_ESYNC"@ != "PROTON_NO_FSYNC"@);
}

/// What became of one trick when the resolver tried it.
#[derive(Debug, Clone, Copy, PartialEq, Eq, Structural)]
pub enum TrickOutcome {
    /// The trick changed something: it was necessary.
    Applied,
    /// The trick found nothing to change.
    Unnecessary,
    /// The trick failed; its siblings were still tried.
    Failed,
}

/// The resolver's aggregate answer: how many tricks changed something, out
/// of how many were tried.
#[derive(Debug, Clone, Copy, PartialEq, Eq, Structural)]
pub struct TrickReport {
    pub applied: usize,
    pub attempted: usize,
}

/// How many outcomes in a row of them were necessary.
pub open spec fn count_applied(s: Seq<TrickOutcome>) -> nat
    decreases s.len(),
{
    if s.len() == 0 {
        0
    } else {
        count_applied(s.drop_last()) + (if s.last() is Applied {
            1nat
        } else {
            0nat
        })
    }
}

pub proof fn lemma_count_applied_le_len(s: Seq<TrickOutcome>)
    ensures
        count_applied(s) <= s.len(),
    decreases s.len(),
{
    if s.len() > 0 {
        lemma_count_applied_le_len(s.drop_last());
    }
}

/// Folds per-trick outcomes into the report the engine prints: every outcome
/// counts as attempted, and only a trick that changed something counts as
/// applied.
pub fn count_outcomes(outcomes: &Vec<TrickOutcome>) -> (r: TrickReport)
    ensures
        r.applied == count_applied(outcomes@),
        r.attempted == outcomes@.len(),
{
    let mut applied: usize = 0;
    let mut i: usize = 0;
    while i < outcomes.len()
        invariant
            i <= outcomes@.len(),
            applied == count_applied(outcomes@.take(i as int)),
        decreases outcomes@.len() - i,
    {
        proof {
            lemma_count_applied_le_len(outcomes@.take(i as int));
            assert(outcomes@.take(i as int + 1).drop_last() =~= outcomes@.take(i as int));
        }
        if matches!(outcomes[i], TrickOutcome::Applied) {
            applied += 1;
        }
        i += 1;
    }
    proof {
        assert(outcomes@.take(outcomes@.len() as int) =~= outcomes@);
    }
    TrickReport { applied, attempted: outcomes.len() }
}

} // verus!
