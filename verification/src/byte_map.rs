//! A map from byte-string names to byte-string values, where a later entry
//! for a name replaces an earlier one: the environment of a child process,
//! or a set of HTTP headers.

use vstd::prelude::*;
use vstd::utf8::encode_utf8;
use crate::paths::{bytes_eq, copy_bytes};

verus! {

/// The view of a list of entries.
pub open spec fn entry_views(s: Seq<(Vec<u8>, Vec<u8>)>) -> Seq<(Seq<u8>, Seq<u8>)> {
    s.map_values(|e: (Vec<u8>, Vec<u8>)| (e.0@, e.1@))
}

/// The map that a list of entries builds when each is inserted in turn.
pub open spec fn entries_map(s: Seq<(Seq<u8>, Seq<u8>)>) -> Map<Seq<u8>, Seq<u8>>
    decreases s.len(),
{
    if s.len() == 0 {
        Map::empty()
    } else {
        entries_map(s.drop_last()).insert(s.last().0, s.last().1)
    }
}

/// The entries of `s` whose names satisfy `keep`.
pub open spec fn keep_entries(s: Seq<(Seq<u8>, Seq<u8>)>, keep: spec_fn(Seq<u8>) -> bool) -> Seq<
    (Seq<u8>, Seq<u8>),
>
    decreases s.len(),
{
    if s.len() == 0 {
        s
    } else if keep(s.last().0) {
        keep_entries(s.drop_last(), keep).push(s.last())
    } else {
        keep_entries(s.drop_last(), keep)
    }
}

/// `m` without the names that fail `keep`.
pub open spec fn restrict_keys(m: Map<Seq<u8>, Seq<u8>>, keep: spec_fn(Seq<u8>) -> bool) -> Map<
    Seq<u8>,
    Seq<u8>,
> {
    m.restrict(m.dom().filter(keep))
}

pub proof fn lemma_keep_entries(s: Seq<(Seq<u8>, Seq<u8>)>, keep: spec_fn(Seq<u8>) -> bool)
    ensures
        entries_map(keep_entries(s, keep)) == restrict_keys(entries_map(s), keep),
    decreases s.len(),
{
    if s.len() > 0 {
        lemma_keep_entries(s.drop_last(), keep);
        let m0 = entries_map(s.drop_last());
        let (k, v) = s.last();
        let k0 = keep_entries(s.drop_last(), keep);
        assert(k0.push(s.last()).drop_last() =~= k0);
        assert(restrict_keys(m0.insert(k, v), keep) =~= if keep(k) {
            restrict_keys(m0, keep).insert(k, v)
        } else {
            restrict_keys(m0, keep)
        });
    } else {
        assert(restrict_keys(entries_map(s), keep) =~= Map::<Seq<u8>, Seq<u8>>::empty());
    }
}

/// A byte with ASCII upper-case letters made lower-case.
pub open spec fn ascii_lower(b: u8) -> u8 {
    if 65 <= b <= 90 {
        (b + 32) as u8
    } else {
        b
    }
}

/// Equal when ASCII letters are compared without regard to case, as
/// `eq_ignore_ascii_case` compares.
pub open spec fn eq_ignore_ascii_case(a: Seq<u8>, b: Seq<u8>) -> bool {
    a.len() == b.len() && forall|i: int| 0 <= i < a.len() ==> ascii_lower(a[i]) == ascii_lower(b[i])
}

/// Compares two byte strings without regard to the case of ASCII letters.
pub fn bytes_eq_ignore_ascii_case(a: &[u8], b: &[u8]) -> (r: bool)
    ensures
        r == eq_ignore_ascii_case(a@, b@),
{
    if a.len() != b.len() {
        return false;
    }
    let n = a.len();
    for i in 0..n
        invariant
            n == a@.len(),
            n == b@.len(),
            forall|k: int| 0 <= k < i ==> ascii_lower(a@[k]) == ascii_lower(b@[k]),
    {
        let x = if 65 <= a[i] && a[i] <= 90 { a[i] + 32 } else { a[i] };
        let y = if 65 <= b[i] && b[i] <= 90 { b[i] + 32 } else { b[i] };
        if x != y {
            return false;
        }
    }
    true
}

/// What `String::from_utf8_lossy` makes of `bytes`: the text they encode,
/// each invalid sequence replaced by U+FFFD.
pub uninterp spec fn utf8_lossy(bytes: Seq<u8>) -> Seq<char>;

/// Calls `String::from_utf8_lossy`. Its contract: the result is
/// `utf8_lossy` of the bytes, a function of the bytes alone; and bytes
/// that are valid UTF-8 come back as the text they encode, as the
/// documentation says. How invalid sequences are replaced is left to that
/// name.
#[verifier::external_body]
fn lossy_text(bytes: &[u8]) -> (r: String)
    ensures
        r@ == utf8_lossy(bytes@),
        forall|t: Seq<char>| encode_utf8(t) == bytes@ ==> r@ == t,
{
    String::from_utf8_lossy(bytes).into_owned()
}

/// The texts of two names (invalid UTF-8 replaced) are equal when ASCII
/// letters are compared without regard to case, as
/// `to_string_lossy().eq_ignore_ascii_case(..)` compares them.
pub open spec fn text_eq_ignore_ascii_case(a: Seq<u8>, b: Seq<u8>) -> bool {
    eq_ignore_ascii_case(encode_utf8(utf8_lossy(a)), encode_utf8(utf8_lossy(b)))
}

/// Compares the texts of two names without regard to the case of ASCII
/// letters.
pub fn text_matches_ignore_ascii_case(a: &[u8], b: &[u8]) -> (r: bool)
    ensures
        r == text_eq_ignore_ascii_case(a@, b@),
{
    let x = lossy_text(a);
    let y = lossy_text(b);
    bytes_eq_ignore_ascii_case(x.as_str().as_bytes(), y.as_str().as_bytes())
}

/// `f` answers the same for the same bytes, and can be asked anything.
pub open spec fn consistent<F: Fn(&[u8]) -> bool>(f: F) -> bool {
    &&& forall|a: &[u8]| call_requires(f, (a,))
    &&& forall|a: &[u8], b: &[u8], x: bool, y: bool|
        a@ == b@ && call_ensures(f, (a,), x) && call_ensures(f, (b,), y) ==> x == y
}

/// `f` answers yes for the bytes `k`.
pub open spec fn answers_yes<F: Fn(&[u8]) -> bool>(f: F, k: Seq<u8>) -> bool {
    exists|a: &[u8]| a@ == k && call_ensures(f, (a,), true)
}

/// Names mapped to values.
pub struct ByteMap {
    entries: Vec<(Vec<u8>, Vec<u8>)>,
}

impl View for ByteMap {
    type V = Map<Seq<u8>, Seq<u8>>;

    closed spec fn view(&self) -> Map<Seq<u8>, Seq<u8>> {
        entries_map(entry_views(self.entries@))
    }
}

impl ByteMap {
    /// An empty map.
    pub fn new() -> (r: ByteMap)
        ensures
            r@ == Map::<Seq<u8>, Seq<u8>>::empty(),
    {
        let r = ByteMap { entries: Vec::new() };
        assert(entry_views(r.entries@) =~= Seq::<(Seq<u8>, Seq<u8>)>::empty());
        r
    }

    /// Sets `name` to `value`, replacing any earlier value.
    pub fn insert(&mut self, name: Vec<u8>, value: Vec<u8>)
        ensures
            final(self)@ == old(self)@.insert(name@, value@),
    {
        let ghost before = entry_views(self.entries@);
        let ghost k = name@;
        let ghost v = value@;
        self.entries.push((name, value));
        assert(entry_views(self.entries@) =~= before.push((k, v)));
        assert(entry_views(self.entries@).drop_last() =~= before);
    }

    /// The value of `name`, if it is set.
    pub fn get(&self, name: &[u8]) -> (r: Option<&Vec<u8>>)
        ensures
            match r {
                Some(v) => self@.contains_key(name@) && self@[name@] == v@,
                None => !self@.contains_key(name@),
            },
    {
        let ghost s = entry_views(self.entries@);
        let mut i = self.entries.len();
        while i > 0
            invariant
                i <= self.entries@.len(),
                s == entry_views(self.entries@),
                forall|j: int| i <= j < s.len() ==> s[j].0 != name@,
            decreases i,
        {
            assert(s[i - 1] == (self.entries@[i - 1].0@, self.entries@[i - 1].1@));
            if bytes_eq(self.entries[i - 1].0.as_slice(), name) {
                proof {
                    lemma_entries_map_lookup(s, name@, i - 1);
                }
                return Some(&self.entries[i - 1].1);
            }
            i = i - 1;
        }
        proof {
            lemma_entries_map_lookup(s, name@, -1);
        }
        None
    }

    /// Keeps the entries whose verdict is true.
    fn keep_marked(&mut self, verdicts: Vec<bool>, Ghost(keep): Ghost<spec_fn(Seq<u8>) -> bool>)
        requires
            verdicts@.len() == old(self).entries@.len(),
            forall|i: int|
                0 <= i < verdicts@.len() ==> verdicts@[i] == keep(
                    #[trigger] old(self).entries@[i].0@,
                ),
        ensures
            final(self)@ == restrict_keys(old(self)@, keep),
    {
        let ghost s = entry_views(self.entries@);
        let mut kept: Vec<(Vec<u8>, Vec<u8>)> = Vec::new();
        let n = self.entries.len();
        assert(s.take(0) =~= Seq::<(Seq<u8>, Seq<u8>)>::empty());
        for i in 0..n
            invariant
                n == self.entries@.len(),
                s == entry_views(self.entries@),
                verdicts@.len() == n,
                forall|j: int|
                    0 <= j < verdicts@.len() ==> verdicts@[j] == keep(
                        #[trigger] self.entries@[j].0@,
                    ),
                entry_views(kept@) == keep_entries(s.take(i as int), keep),
        {
            let ghost t = s.take(i + 1);
            assert(t.drop_last() =~= s.take(i as int));
            assert(t.last() == s[i as int]);
            assert(s[i as int].0 == self.entries@[i as int].0@);
            if verdicts[i] {
                let ghost before = entry_views(kept@);
                let name = copy_bytes(self.entries[i].0.as_slice());
                let value = copy_bytes(self.entries[i].1.as_slice());
                kept.push((name, value));
                assert(entry_views(kept@) =~= before.push(s[i as int]));
            }
        }
        assert(s.take(n as int) =~= s);
        proof {
            lemma_keep_entries(s, keep);
        }
        self.entries = kept;
    }

    /// Removes every name whose text matches that of `name` without regard
    /// to the case of ASCII letters, invalid UTF-8 in either read as U+FFFD.
    pub fn remove_ignore_ascii_case(&mut self, name: &[u8])
        ensures
            final(self)@ == restrict_keys(
                old(self)@,
                |k: Seq<u8>| !text_eq_ignore_ascii_case(k, name@),
            ),
    {
        let ghost keep = |k: Seq<u8>| !text_eq_ignore_ascii_case(k, name@);
        let mut verdicts: Vec<bool> = Vec::new();
        let n = self.entries.len();
        for i in 0..n
            invariant
                n == self.entries@.len(),
                keep == (|k: Seq<u8>| !text_eq_ignore_ascii_case(k, name@)),
                verdicts@.len() == i,
                forall|j: int|
                    0 <= j < i ==> verdicts@[j] == keep(#[trigger] self.entries@[j].0@),
        {
            let v = !text_matches_ignore_ascii_case(self.entries[i].0.as_slice(), name);
            verdicts.push(v);
            assert(verdicts@[i as int] == keep(self.entries@[i as int].0@));
        }
        self.keep_marked(verdicts, Ghost(keep));
    }

    /// Removes every name for which `drop` answers yes.
    pub fn remove_where<F: Fn(&[u8]) -> bool>(&mut self, drop: &F)
        requires
            consistent(*drop),
        ensures
            final(self)@ == restrict_keys(old(self)@, |k: Seq<u8>| !answers_yes(*drop, k)),
    {
        let ghost keep = |k: Seq<u8>| !answers_yes(*drop, k);
        let mut verdicts: Vec<bool> = Vec::new();
        let n = self.entries.len();
        for i in 0..n
            invariant
                n == self.entries@.len(),
                consistent(*drop),
                keep == (|k: Seq<u8>| !answers_yes(*drop, k)),
                verdicts@.len() == i,
                forall|j: int|
                    0 <= j < i ==> verdicts@[j] == keep(#[trigger] self.entries@[j].0@),
        {
            let key = self.entries[i].0.as_slice();
            let yes = drop(key);
            verdicts.push(!yes);
            assert(yes == answers_yes(*drop, key@));
            assert(verdicts@[i as int] == keep(self.entries@[i as int].0@));
        }
        self.keep_marked(verdicts, Ghost(keep));
    }

    /// The entries, in an order in which inserting them one by one builds
    /// this map.
    pub fn into_entries(self) -> (r: Vec<(Vec<u8>, Vec<u8>)>)
        ensures
            entries_map(entry_views(r@)) == self@,
    {
        self.entries
    }
}

/// A name is in the map of a list of entries exactly when some entry sets
/// it.
pub proof fn lemma_entries_map_domain(s: Seq<(Seq<u8>, Seq<u8>)>, k: Seq<u8>)
    ensures
        entries_map(s).contains_key(k) <==> exists|i: int| 0 <= i < s.len() && s[i].0 == k,
    decreases s.len(),
{
    if s.len() > 0 {
        lemma_entries_map_domain(s.drop_last(), k);
        if exists|i: int| 0 <= i < s.drop_last().len() && s.drop_last()[i].0 == k {
            let i = choose|i: int| 0 <= i < s.drop_last().len() && s.drop_last()[i].0 == k;
            assert(s[i].0 == k);
        }
        if exists|i: int| 0 <= i < s.len() && s[i].0 == k {
            let i = choose|i: int| 0 <= i < s.len() && s[i].0 == k;
            if i < s.len() - 1 {
                assert(s.drop_last()[i].0 == k);
            }
        }
    }
}

/// The map of two lists one after the other.
pub proof fn lemma_entries_map_concat(a: Seq<(Seq<u8>, Seq<u8>)>, b: Seq<(Seq<u8>, Seq<u8>)>)
    ensures
        entries_map(a + b) == entries_map(a).union_prefer_right(entries_map(b)),
    decreases b.len(),
{
    if b.len() == 0 {
        assert(a + b =~= a);
        assert(entries_map(a).union_prefer_right(Map::empty()) =~= entries_map(a));
    } else {
        lemma_entries_map_concat(a, b.drop_last());
        assert((a + b).drop_last() =~= a + b.drop_last());
        assert((a + b).last() == b.last());
        assert(entries_map(a).union_prefer_right(entries_map(b.drop_last())).insert(
            b.last().0,
            b.last().1,
        ) =~= entries_map(a).union_prefer_right(
            entries_map(b.drop_last()).insert(b.last().0, b.last().1),
        ));
    }
}

/// Looking a name up in the map of a list of entries finds the value of
/// its last entry.
pub proof fn lemma_entries_map_lookup(s: Seq<(Seq<u8>, Seq<u8>)>, k: Seq<u8>, idx: int)
    requires
        -1 <= idx < s.len(),
        idx >= 0 ==> s[idx].0 == k,
        forall|j: int| idx < j < s.len() ==> s[j].0 != k,
    ensures
        idx >= 0 ==> entries_map(s).contains_key(k) && entries_map(s)[k] == s[idx].1,
        idx < 0 ==> !entries_map(s).contains_key(k),
    decreases s.len(),
{
    if s.len() > 0 {
        if idx == s.len() - 1 {
        } else {
            lemma_entries_map_lookup(s.drop_last(), k, idx);
        }
    }
}

} // verus!
