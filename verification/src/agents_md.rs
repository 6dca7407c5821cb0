//! The state of AGENTS.md discovery for a session: the user's own
//! instructions, and the cache that decides when discovery runs again.

use vstd::prelude::*;
use vstd::std_specs::cmp::PartialEqSpec;

verus! {

/// Instructions that the user configured for every session.
pub struct UserInstructions {
    pub text: String,
}

/// A character with the Unicode `White_Space` property, as
/// `char::is_whitespace` and `str::trim` read it.
pub open spec fn is_white_space(c: char) -> bool {
    ||| '\u{9}' <= c <= '\u{d}'
    ||| c == ' '
    ||| c == '\u{85}'
    ||| c == '\u{a0}'
    ||| c == '\u{1680}'
    ||| '\u{2000}' <= c <= '\u{200a}'
    ||| c == '\u{2028}'
    ||| c == '\u{2029}'
    ||| c == '\u{202f}'
    ||| c == '\u{205f}'
    ||| c == '\u{3000}'
}

/// Nothing is left of the text once white space is trimmed.
pub open spec fn is_blank(s: Seq<char>) -> bool {
    forall|i: int| 0 <= i < s.len() ==> is_white_space(s[i])
}

fn white_space(c: char) -> (r: bool)
    ensures
        r == is_white_space(c),
{
    ('\u{9}' <= c && c <= '\u{d}') || c == ' ' || c == '\u{85}' || c == '\u{a0}' || c == '\u{1680}'
        || ('\u{2000}' <= c && c <= '\u{200a}') || c == '\u{2028}' || c == '\u{2029}' || c
        == '\u{202f}' || c == '\u{205f}' || c == '\u{3000}'
}

/// Whether `s` is empty once white space is trimmed.
pub fn blank(s: &str) -> (r: bool)
    ensures
        r == is_blank(s@),
{
    broadcast use vstd::string::axiom_spec_iter;

    for c in it: s.chars()
        invariant
            it.seq() == s@,
            forall|j: int| 0 <= j < it.index() ==> is_white_space(s@[j]),
    {
        if !white_space(c) {
            return false;
        }
    }
    true
}

/// Keeps the user's instructions only when they hold more than white
/// space.
pub fn retained_user_instructions(user_instructions: Option<UserInstructions>) -> (r: Option<
    UserInstructions,
>)
    ensures
        r == match user_instructions {
            Some(i) => if is_blank(i.text@) {
                None
            } else {
                Some(i)
            },
            None => None,
        },
{
    match user_instructions {
        Some(i) => if blank(i.text.as_str()) {
            None
        } else {
            Some(i)
        },
        None => None,
    }
}

/// The inputs and result of the last discovery: the environment
/// selections, the trust level of the active project, and what was loaded.
pub struct AgentsMdCache<S, T, L> {
    pub selections: Option<Vec<S>>,
    pub active_project_trust_level: Option<T>,
    pub loaded: Option<L>,
}

/// Two lists are equal by the elements' own equality.
pub open spec fn lists_equal<S: PartialEq>(a: Seq<S>, b: Seq<S>) -> bool {
    a.len() == b.len() && forall|i: int| 0 <= i < a.len() ==> a[i].eq_spec(&b[i])
}

/// Discovery can be skipped: the selections and the trust level are those
/// of the last discovery, and that discovery found instructions.
pub open spec fn cache_is_current<S: PartialEq, T: PartialEq, L>(
    cache: AgentsMdCache<S, T, L>,
    selections: Seq<S>,
    trust: Option<T>,
) -> bool {
    &&& cache.selections matches Some(c) && lists_equal(c@, selections)
    &&& match (cache.active_project_trust_level, trust) {
        (Some(a), Some(b)) => a.eq_spec(&b),
        (None, None) => true,
        _ => false,
    }
    &&& cache.loaded is Some
}

impl<S: PartialEq, T: PartialEq, L> AgentsMdCache<S, T, L> {
    /// A cache from which nothing was discovered yet.
    pub fn new() -> (r: Self)
        ensures
            r.selections is None,
            r.active_project_trust_level is None,
            r.loaded is None,
    {
        AgentsMdCache { selections: None, active_project_trust_level: None, loaded: None }
    }

    /// Starts a refresh for the given inputs: answers whether discovery must
    /// run, and when it must, forgets the last discovery. Discovery is
    /// skipped only when the inputs equal those of the last discovery and
    /// it found instructions, since files created since then must be found
    /// too.
    pub fn begin_refresh(&mut self, selections: &Vec<S>, trust: &Option<T>) -> (run: bool)
        ensures
            S::obeys_eq_spec() && T::obeys_eq_spec() ==> run == !cache_is_current(
                *old(self),
                selections@,
                *trust,
            ),
            old(self).loaded is None ==> run,
            run ==> final(self).selections is None && final(self).active_project_trust_level is None
                && final(self).loaded is None,
            !run ==> *final(self) == *old(self),
    {
        let same_selections = match &self.selections {
            Some(cached) => {
                let n = cached.len();
                if n != selections.len() {
                    false
                } else {
                    let mut all = true;
                    let mut i: usize = 0;
                    while i < n
                        invariant
                            n == cached@.len(),
                            n == selections@.len(),
                            i <= n,
                            S::obeys_eq_spec() ==> (all <==> forall|j: int|
                                0 <= j < i ==> cached@[j].eq_spec(&selections@[j])),
                        decreases n - i,
                    {
                        let e = cached[i] == selections[i];
                        all = all && e;
                        i = i + 1;
                    }
                    all
                }
            },
            None => false,
        };
        let same_trust = match (&self.active_project_trust_level, trust) {
            (Some(a), Some(b)) => a == b,
            (None, None) => true,
            _ => false,
        };
        if same_selections && same_trust && self.loaded.is_some() {
            return false;
        }
        self.selections = None;
        self.active_project_trust_level = None;
        self.loaded = None;
        true
    }

    /// Records a finished discovery.
    pub fn finish_refresh(&mut self, selections: Vec<S>, trust: Option<T>, loaded: Option<L>)
        ensures
            final(self).selections == Some(selections),
            final(self).active_project_trust_level == trust,
            final(self).loaded == loaded,
    {
        self.selections = Some(selections);
        self.active_project_trust_level = trust;
        self.loaded = loaded;
    }
}

/// Owns the user's instructions and the cached result of AGENTS.md
/// discovery for a session. A refresh is done in two steps, around the
/// discovery itself: `begin_refresh` says whether discovery must run, and
/// `finish_refresh` records what it found.
pub struct AgentsMdManager<S, T, L> {
    user_instructions: Option<UserInstructions>,
    cache: AgentsMdCache<S, T, L>,
}

impl<S: PartialEq, T: PartialEq, L> AgentsMdManager<S, T, L> {
    /// The user's instructions that the session keeps.
    pub closed spec fn instructions(&self) -> Option<UserInstructions> {
        self.user_instructions
    }

    /// The inputs and result of the last discovery.
    pub closed spec fn discovery(&self) -> AgentsMdCache<S, T, L> {
        self.cache
    }

    /// A manager that keeps the user's instructions when they hold more
    /// than white space, and has discovered nothing yet.
    pub fn new(user_instructions: Option<UserInstructions>) -> (r: Self)
        ensures
            r.instructions() == match user_instructions {
                Some(i) => if is_blank(i.text@) {
                    None
                } else {
                    Some(i)
                },
                None => None,
            },
            r.discovery().selections is None,
            r.discovery().active_project_trust_level is None,
            r.discovery().loaded is None,
    {
        AgentsMdManager {
            user_instructions: retained_user_instructions(user_instructions),
            cache: AgentsMdCache::new(),
        }
    }

    /// Starts a refresh; see `AgentsMdCache::begin_refresh`.
    pub fn begin_refresh(&mut self, selections: &Vec<S>, trust: &Option<T>) -> (run: bool)
        ensures
            S::obeys_eq_spec() && T::obeys_eq_spec() ==> run == !cache_is_current(
                old(self).discovery(),
                selections@,
                *trust,
            ),
            old(self).discovery().loaded is None ==> run,
            run ==> final(self).discovery().selections is None
                && final(self).discovery().active_project_trust_level is None
                && final(self).discovery().loaded is None,
            !run ==> final(self).discovery() == old(self).discovery(),
            final(self).instructions() == old(self).instructions(),
    {
        self.cache.begin_refresh(selections, trust)
    }

    /// Records a finished discovery.
    pub fn finish_refresh(&mut self, selections: Vec<S>, trust: Option<T>, loaded: Option<L>)
        ensures
            final(self).discovery().selections == Some(selections),
            final(self).discovery().active_project_trust_level == trust,
            final(self).discovery().loaded == loaded,
            final(self).instructions() == old(self).instructions(),
    {
        self.cache.finish_refresh(selections, trust, loaded);
    }

    /// What the last discovery found, if anything.
    pub fn get_loaded(&self) -> (r: Option<&L>)
        ensures
            r is None <==> self.discovery().loaded is None,
            r matches Some(l) ==> self.discovery().loaded == Some(*l),
    {
        self.cache.loaded.as_ref()
    }

    /// The user's instructions that the session keeps.
    pub fn user_instructions(&self) -> (r: Option<UserInstructions>)
        ensures
            r == self.instructions(),
    {
        match &self.user_instructions {
            Some(i) => Some(UserInstructions { text: i.text.clone() }),
            None => None,
        }
    }
}

/// A discovery that found instructions is reused: once a refresh has
/// recorded instructions for some selections and trust level, a refresh with
/// the same inputs skips discovery (for element types whose equality is
/// reflexive, as `Eq` promises).
pub proof fn law_found_instructions_are_reused<S: PartialEq, T: PartialEq, L>(
    cache: AgentsMdCache<S, T, L>,
    selections: Vec<S>,
    trust: Option<T>,
    loaded: L,
)
    requires
        cache.selections == Some(selections),
        cache.active_project_trust_level == trust,
        cache.loaded == Some(loaded),
        forall|x: S| #[trigger] x.eq_spec(&x),
        forall|x: T| #[trigger] x.eq_spec(&x),
    ensures
        cache_is_current(cache, selections@, trust),
{
    match trust {
        Some(t) => assert(t.eq_spec(&t)),
        None => {},
    }
    assert forall|i: int| 0 <= i < selections@.len() implies selections@[i].eq_spec(
        &selections@[i],
    ) by {
        assert(selections@[i].eq_spec(&selections@[i]));
    }
}

/// A discovery that found nothing is never reused: whatever the inputs of
/// the next refresh, discovery runs again, so that instructions created
/// since then are found.
pub proof fn law_empty_discovery_runs_again<S: PartialEq, T: PartialEq, L>(
    cache: AgentsMdCache<S, T, L>,
    selections: Seq<S>,
    trust: Option<T>,
)
    requires
        cache.loaded is None,
    ensures
        !cache_is_current(cache, selections, trust),
{
}

} // verus!
