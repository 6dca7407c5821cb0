//! A model of Unix path strings as byte strings, with the operations that
//! path mapping needs: splitting into components, stripping a prefix
//! component by component, and joining.

use vstd::prelude::*;

verus! {

/// The path separator `/`.
pub const SEPARATOR: u8 = 47;

/// The byte `.`, which names the current directory when it stands alone.
pub const DOT: u8 = 46;

/// The pieces of `s` between separators, in order: `"/a//b"` gives
/// `["", "a", "", "b"]`. There is always at least one piece.
pub open spec fn segments(s: Seq<u8>) -> Seq<Seq<u8>>
    decreases s.len(),
{
    if s.len() == 0 {
        seq![Seq::<u8>::empty()]
    } else {
        let prev = segments(s.drop_last());
        if s.last() == SEPARATOR {
            prev.push(Seq::<u8>::empty())
        } else {
            prev.update(prev.len() - 1, prev.last().push(s.last()))
        }
    }
}

/// A piece that names something: neither empty nor a lone `.`. Empty
/// pieces (from doubled or trailing separators) and `.` pieces are skipped
/// when a path is read as components; `..` is kept.
pub open spec fn is_named(seg: Seq<u8>) -> bool {
    seg.len() > 1 || (seg.len() == 1 && seg[0] != DOT)
}

/// The pieces of `l` that name something, in order.
pub open spec fn named(l: Seq<Seq<u8>>) -> Seq<Seq<u8>>
    decreases l.len(),
{
    if l.len() == 0 {
        l
    } else if is_named(l.last()) {
        named(l.drop_last()).push(l.last())
    } else {
        named(l.drop_last())
    }
}

/// The path starts at the root directory.
pub open spec fn has_root(s: Seq<u8>) -> bool {
    s.len() > 0 && s[0] == SEPARATOR
}

/// A relative path that starts with the current directory: `.` alone or
/// followed by a separator.
pub open spec fn leading_cur_dir(s: Seq<u8>) -> bool {
    !has_root(s) && s.len() > 0 && s[0] == DOT && (s.len() == 1 || s[1] == SEPARATOR)
}

/// The components before the named ones: the root directory, written
/// `/`, or a leading current directory, written `.`, or nothing.
pub open spec fn start_components(s: Seq<u8>) -> Seq<Seq<u8>> {
    if has_root(s) {
        seq![seq![SEPARATOR]]
    } else if leading_cur_dir(s) {
        seq![seq![DOT]]
    } else {
        Seq::empty()
    }
}

/// The components of a path, as `Path::components` reads them on Unix;
/// two paths are equal as paths when their components are equal.
pub open spec fn components(s: Seq<u8>) -> Seq<Seq<u8>> {
    start_components(s) + named(segments(s))
}

/// Drops pieces from the front until `m` named pieces are gone, then drops
/// the pieces that name nothing up to the next named one.
pub open spec fn drop_front(l: Seq<Seq<u8>>, m: nat) -> Seq<Seq<u8>>
    decreases l.len(),
{
    if l.len() == 0 {
        l
    } else if m == 0 {
        if is_named(l[0]) {
            l
        } else {
            drop_front(l.drop_first(), 0)
        }
    } else if is_named(l[0]) {
        drop_front(l.drop_first(), (m - 1) as nat)
    } else {
        drop_front(l.drop_first(), m)
    }
}

/// Drops the pieces that name nothing from the back.
pub open spec fn trim_back(l: Seq<Seq<u8>>) -> Seq<Seq<u8>>
    decreases l.len(),
{
    if l.len() > 0 && !is_named(l.last()) {
        trim_back(l.drop_last())
    } else {
        l
    }
}

/// Puts pieces back together with a separator between each two.
pub open spec fn join_segments(l: Seq<Seq<u8>>) -> Seq<u8>
    decreases l.len(),
{
    if l.len() == 0 {
        Seq::empty()
    } else if l.len() == 1 {
        l[0]
    } else {
        join_segments(l.drop_last()) + seq![SEPARATOR] + l.last()
    }
}

/// What `Path::strip_prefix` leaves of `s` for a base without components
/// (the empty path): `s` without trailing separators and `.` pieces, but
/// keeping a leading root or current directory.
pub open spec fn trim_end(s: Seq<u8>) -> Seq<u8> {
    let t = trim_back(segments(s));
    if t.len() == 0 {
        if has_root(s) {
            seq![SEPARATOR]
        } else if leading_cur_dir(s) {
            seq![DOT]
        } else {
            Seq::empty()
        }
    } else {
        join_segments(t)
    }
}

/// `Path::strip_prefix` on Unix: when the components of `base` begin those
/// of `s`, the rest of `s` after them, without leading and trailing
/// separators and `.` pieces; for a base without components, `s` as
/// `trim_end` leaves it.
pub open spec fn strip_prefix_spec(s: Seq<u8>, base: Seq<u8>) -> Option<Seq<u8>> {
    let cs = components(s);
    let cb = components(base);
    if cb.len() == 0 {
        Some(trim_end(s))
    } else if cb.len() <= cs.len() && cs.subrange(0, cb.len() as int) == cb {
        Some(
            join_segments(
                trim_back(
                    drop_front(segments(s), (cb.len() - start_components(s).len()) as nat),
                ),
            ),
        )
    } else {
        None
    }
}

/// `Path::join` on Unix: an absolute `p` replaces `base`; otherwise `p` is
/// appended, after a separator unless `base` is empty or ends in one.
pub open spec fn join_path_spec(base: Seq<u8>, p: Seq<u8>) -> Seq<u8> {
    if has_root(p) {
        p
    } else if base.len() > 0 && base.last() != SEPARATOR {
        base + seq![SEPARATOR] + p
    } else {
        base + p
    }
}

/// The view of a vector of byte vectors as a sequence of byte sequences.
pub open spec fn bytes_list(v: Seq<Vec<u8>>) -> Seq<Seq<u8>> {
    v.map_values(|x: Vec<u8>| x@)
}

pub proof fn lemma_segments_nonempty(s: Seq<u8>)
    ensures
        segments(s).len() >= 1,
    decreases s.len(),
{
    if s.len() > 0 {
        lemma_segments_nonempty(s.drop_last());
    }
}

/// Appending bytes without a separator extends the last piece.
pub proof fn lemma_segments_append_plain(a: Seq<u8>, b: Seq<u8>)
    requires
        forall|i: int| 0 <= i < b.len() ==> b[i] != SEPARATOR,
    ensures
        segments(a + b).len() == segments(a).len(),
        segments(a + b).drop_last() == segments(a).drop_last(),
        segments(a + b).last() == segments(a).last() + b,
    decreases b.len(),
{
    lemma_segments_nonempty(a);
    if b.len() == 0 {
        assert(a + b =~= a);
        assert(segments(a).last() + b =~= segments(a).last());
    } else {
        let b0 = b.drop_last();
        lemma_segments_append_plain(a, b0);
        assert((a + b).drop_last() =~= a + b0);
        assert((a + b).last() == b.last());
        lemma_segments_nonempty(a + b0);
        let prev = segments(a + b0);
        assert(segments(a + b) == prev.update(prev.len() - 1, prev.last().push(b.last())));
        assert(segments(a + b).drop_last() =~= prev.drop_last());
        assert(prev.last().push(b.last()) =~= segments(a).last() + b);
    }
}

/// A piece that names something at the end makes the named list nonempty.
pub proof fn lemma_named_last(l: Seq<Seq<u8>>)
    requires
        l.len() > 0,
        is_named(l.last()),
    ensures
        named(l).len() > 0,
        named(l).last() == l.last(),
{
}

/// Joining a directory name without separators onto any path gives a path
/// with at least one component, which is not empty and does not end in a
/// separator.
pub proof fn lemma_join_named_directory(t: Seq<u8>, d: Seq<u8>)
    requires
        d.len() > 1,
        forall|i: int| 0 <= i < d.len() ==> d[i] != SEPARATOR,
    ensures
        components(join_path_spec(t, d)).len() > 0,
        join_path_spec(t, d).len() > 0,
        join_path_spec(t, d).last() != SEPARATOR,
{
    let x = if t.len() > 0 && t.last() != SEPARATOR { t + seq![SEPARATOR] } else { t };
    assert(join_path_spec(t, d) =~= x + d);
    lemma_segments_append_plain(x, d);
    lemma_segments_nonempty(x);
    let l = segments(x + d);
    assert(l.last().len() >= d.len());
    lemma_named_last(l);
    assert((x + d).last() == d.last());
}

/// No byte of `x` is a separator.
pub open spec fn no_separator(x: Seq<u8>) -> bool {
    forall|i: int| 0 <= i < x.len() ==> x[i] != SEPARATOR
}

/// No piece of `l` holds a separator.
pub open spec fn pieces(l: Seq<Seq<u8>>) -> bool {
    forall|i: int| 0 <= i < l.len() ==> #[trigger] no_separator(l[i])
}

/// Pieces as the rest of a stripped path has them: no separators, and a
/// named piece first and last.
pub open spec fn trimmed(l: Seq<Seq<u8>>) -> bool {
    &&& pieces(l)
    &&& l.len() > 0 ==> is_named(l[0]) && is_named(l.last())
}

pub proof fn lemma_segments_pieces(s: Seq<u8>)
    ensures
        pieces(segments(s)),
    decreases s.len(),
{
    if s.len() > 0 {
        lemma_segments_pieces(s.drop_last());
        lemma_segments_nonempty(s.drop_last());
        let prev = segments(s.drop_last());
        if s.last() != SEPARATOR {
            let x = prev.last().push(s.last());
            assert(no_separator(prev[prev.len() - 1]));
            assert(no_separator(x));
            assert forall|i: int| 0 <= i < segments(s).len() implies #[trigger] no_separator(
                segments(s)[i],
            ) by {
                if i < prev.len() - 1 {
                    assert(segments(s)[i] == prev[i]);
                }
            }
        } else {
            assert forall|i: int| 0 <= i < segments(s).len() implies #[trigger] no_separator(
                segments(s)[i],
            ) by {
                if i < prev.len() {
                    assert(segments(s)[i] == prev[i]);
                } else {
                    assert(segments(s)[i] =~= Seq::<u8>::empty());
                }
            }
        }
    }
}

/// A separator between two byte strings separates their pieces.
pub proof fn lemma_segments_sep_concat(a: Seq<u8>, b: Seq<u8>)
    ensures
        segments(a + seq![SEPARATOR] + b) == segments(a) + segments(b),
    decreases b.len(),
{
    let s = a + seq![SEPARATOR] + b;
    if b.len() == 0 {
        assert(s.drop_last() =~= a);
        assert(s.last() == SEPARATOR);
        assert(segments(a).push(Seq::<u8>::empty()) =~= segments(a) + segments(b));
    } else {
        let b0 = b.drop_last();
        lemma_segments_sep_concat(a, b0);
        assert(s.drop_last() =~= a + seq![SEPARATOR] + b0);
        assert(s.last() == b.last());
        lemma_segments_nonempty(b0);
        lemma_segments_nonempty(a);
        let sa = segments(a);
        let sb0 = segments(b0);
        let prev = sa + sb0;
        if b.last() == SEPARATOR {
            assert(prev.push(Seq::<u8>::empty()) =~= sa + sb0.push(Seq::<u8>::empty()));
        } else {
            assert(prev.last() == sb0.last());
            assert(prev.update(prev.len() - 1, prev.last().push(b.last())) =~= sa + sb0.update(
                sb0.len() - 1,
                sb0.last().push(b.last()),
            ));
        }
    }
}

/// A byte string without separators is a single piece.
pub proof fn lemma_segments_single(x: Seq<u8>)
    requires
        no_separator(x),
    ensures
        segments(x) == seq![x],
{
    lemma_segments_append_plain(Seq::<u8>::empty(), x);
    assert(Seq::<u8>::empty() + x =~= x);
    assert(segments(Seq::<u8>::empty()).last() + x =~= x);
    assert(segments(x) =~= seq![x]);
}

/// Splitting what was joined gives the pieces back.
pub proof fn lemma_segments_join(l: Seq<Seq<u8>>)
    requires
        l.len() > 0,
        pieces(l),
    ensures
        segments(join_segments(l)) == l,
    decreases l.len(),
{
    if l.len() == 1 {
        assert(no_separator(l[0]));
        lemma_segments_single(l[0]);
        assert(seq![l[0]] =~= l);
    } else {
        let l0 = l.drop_last();
        assert(pieces(l0)) by {
            assert forall|i: int| 0 <= i < l0.len() implies #[trigger] no_separator(l0[i]) by {
                assert(l0[i] == l[i]);
                assert(no_separator(l[i]));
            }
        }
        lemma_segments_join(l0);
        lemma_segments_sep_concat(join_segments(l0), l.last());
        assert(no_separator(l[l.len() - 1]));
        lemma_segments_single(l.last());
        assert(l0 + seq![l.last()] =~= l);
    }
}

/// The named pieces of a concatenation.
pub proof fn lemma_named_concat(a: Seq<Seq<u8>>, b: Seq<Seq<u8>>)
    ensures
        named(a + b) == named(a) + named(b),
    decreases b.len(),
{
    if b.len() == 0 {
        assert(a + b =~= a);
        assert(named(a) + named(b) =~= named(a));
    } else {
        let b0 = b.drop_last();
        lemma_named_concat(a, b0);
        assert((a + b).drop_last() =~= a + b0);
        assert((a + b).last() == b.last());
        if is_named(b.last()) {
            assert(named(a + b0).push(b.last()) =~= named(a) + named(b0).push(b.last()));
        }
    }
}

/// The named pieces, read from the front.
pub proof fn lemma_named_front(l: Seq<Seq<u8>>)
    requires
        l.len() > 0,
    ensures
        named(l) == (if is_named(l[0]) { seq![l[0]] } else { Seq::<Seq<u8>>::empty() }) + named(
            l.drop_first(),
        ),
{
    assert(seq![l[0]] + l.drop_first() =~= l);
    lemma_named_concat(seq![l[0]], l.drop_first());
    let one = seq![l[0]];
    assert(one.drop_last() =~= Seq::<Seq<u8>>::empty());
    assert(named(Seq::<Seq<u8>>::empty()) =~= Seq::<Seq<u8>>::empty());
    assert(one.last() == l[0]);
    if is_named(l[0]) {
        assert(named(one) =~= seq![l[0]]);
    } else {
        assert(named(one) =~= Seq::<Seq<u8>>::empty());
    }
}

/// Dropping as many named pieces as the front part has leaves the back
/// part, less its leading pieces that name nothing.
pub proof fn lemma_drop_front_concat(a: Seq<Seq<u8>>, b: Seq<Seq<u8>>)
    ensures
        drop_front(a + b, named(a).len()) == drop_front(b, 0),
    decreases a.len(),
{
    if a.len() == 0 {
        assert(a + b =~= b);
    } else {
        lemma_named_front(a);
        assert((a + b)[0] == a[0]);
        assert((a + b).drop_first() =~= a.drop_first() + b);
        lemma_drop_front_concat(a.drop_first(), b);
    }
}

pub proof fn lemma_named_trim_back(l: Seq<Seq<u8>>)
    ensures
        named(trim_back(l)) == named(l),
        trim_back(l).len() <= l.len(),
        trim_back(l) == l.take(trim_back(l).len() as int),
        trim_back(l).len() > 0 ==> is_named(trim_back(l).last()),
    decreases l.len(),
{
    if l.len() > 0 && !is_named(l.last()) {
        lemma_named_trim_back(l.drop_last());
        let t = trim_back(l.drop_last());
        assert(l.drop_last().take(t.len() as int) =~= l.take(t.len() as int));
    } else {
        assert(l.take(l.len() as int) =~= l);
    }
}

pub proof fn lemma_named_drop_front(l: Seq<Seq<u8>>, m: nat)
    requires
        m <= named(l).len(),
    ensures
        named(drop_front(l, m)) == named(l).skip(m as int),
        pieces(l) ==> pieces(drop_front(l, m)),
        drop_front(l, m).len() > 0 ==> is_named(drop_front(l, m)[0]),
    decreases l.len(),
{
    if l.len() == 0 {
        assert(named(l).skip(0) =~= named(l));
    } else {
        lemma_named_front(l);
        let rest = l.drop_first();
        assert(pieces(l) ==> pieces(rest)) by {
            if pieces(l) {
                assert forall|i: int| 0 <= i < rest.len() implies #[trigger] no_separator(
                    rest[i],
                ) by {
                    assert(rest[i] == l[i + 1]);
                    assert(no_separator(l[i + 1]));
                }
            }
        }
        if m == 0 {
            if is_named(l[0]) {
                assert(named(l).skip(0) =~= named(l));
            } else {
                lemma_named_drop_front(rest, 0);
                assert(named(rest).skip(0) =~= named(rest));
                assert(named(l).skip(0) =~= named(l));
            }
        } else if is_named(l[0]) {
            lemma_named_drop_front(rest, (m - 1) as nat);
            assert(named(l).skip(m as int) =~= named(rest).skip(m - 1));
        } else {
            lemma_named_drop_front(rest, m);
            assert(named(l) =~= named(rest));
        }
    }
}

/// A joined list of pieces starts with the first byte of its first piece.
pub proof fn lemma_join_first(l: Seq<Seq<u8>>)
    requires
        l.len() > 0,
        l[0].len() > 0,
    ensures
        join_segments(l).len() > 0,
        join_segments(l)[0] == l[0][0],
    decreases l.len(),
{
    if l.len() > 1 {
        let l0 = l.drop_last();
        lemma_join_first(l0);
        assert((join_segments(l0) + seq![SEPARATOR] + l.last())[0] == join_segments(l0)[0]);
    }
}

/// Joining trimmed pieces onto a base that is not empty and does not end in
/// a separator, then stripping the base again, gives the joined pieces
/// back; the components of the result are those of the base followed by
/// the named pieces.
pub proof fn lemma_strip_joined(base: Seq<u8>, l: Seq<Seq<u8>>)
    requires
        base.len() > 0,
        base.last() != SEPARATOR,
        components(base).len() > 0,
        trimmed(l),
    ensures
        join_path_spec(base, join_segments(l)) == base + seq![SEPARATOR] + join_segments(l),
        strip_prefix_spec(join_path_spec(base, join_segments(l)), base) == Some(join_segments(l)),
        components(join_path_spec(base, join_segments(l))) == components(base) + named(l),
{
    let rel = join_segments(l);
    let s = base + seq![SEPARATOR] + rel;
    if l.len() > 0 {
        assert(no_separator(l[0]));
        lemma_join_first(l);
        assert(rel[0] != SEPARATOR);
    }
    assert(join_path_spec(base, rel) == s);
    let sr = segments(rel);
    if l.len() > 0 {
        lemma_segments_join(l);
    } else {
        assert(rel =~= Seq::<u8>::empty());
        assert(sr =~= seq![Seq::<u8>::empty()]);
        assert(!is_named(sr.last()));
        assert(sr.drop_last() =~= Seq::<Seq<u8>>::empty());
        assert(named(Seq::<Seq<u8>>::empty()) =~= Seq::<Seq<u8>>::empty());
        assert(named(sr) =~= named(l));
    }
    assert(named(sr) == named(l));
    lemma_segments_sep_concat(base, rel);
    lemma_named_concat(segments(base), sr);
    assert(s[0] == base[0]);
    if base.len() > 1 {
        assert(s[1] == base[1]);
    } else {
        assert(s[1] == SEPARATOR);
    }
    assert(start_components(s) == start_components(base));
    let cb = components(base);
    let cs = components(s);
    assert(cs =~= cb + named(l));
    assert(cs.subrange(0, cb.len() as int) =~= cb);
    let nb = named(segments(base)).len();
    assert(cb.len() - start_components(s).len() == nb);
    lemma_drop_front_concat(segments(base), sr);
    if l.len() > 0 {
        assert(drop_front(l, 0) == l);
        assert(trim_back(l) == l);
    } else {
        assert(sr.drop_first() =~= Seq::<Seq<u8>>::empty());
        assert(!is_named(sr[0]));
        assert(drop_front(Seq::<Seq<u8>>::empty(), 0) =~= Seq::<Seq<u8>>::empty());
        assert(drop_front(sr, 0) =~= Seq::<Seq<u8>>::empty());
        assert(trim_back(Seq::<Seq<u8>>::empty()) =~= Seq::<Seq<u8>>::empty());
        assert(rel =~= join_segments(Seq::<Seq<u8>>::empty()));
    }
}

/// What `strip_prefix_spec` leaves is a list of trimmed pieces joined
/// together, and the components of the path are those of the base
/// followed by the named pieces of the rest.
pub proof fn lemma_strip_rest(p: Seq<u8>, base: Seq<u8>) -> (l: Seq<Seq<u8>>)
    requires
        components(base).len() > 0,
        strip_prefix_spec(p, base) is Some,
    ensures
        trimmed(l),
        strip_prefix_spec(p, base) == Some(join_segments(l)),
        components(p) == components(base) + named(l),
{
    let cs = components(p);
    let cb = components(base);
    let st = start_components(p);
    let sp = segments(p);
    let m = (cb.len() - st.len()) as nat;
    let d = drop_front(sp, m);
    let l = trim_back(d);
    lemma_segments_pieces(p);
    assert(cs.len() == st.len() + named(sp).len());
    lemma_named_drop_front(sp, m);
    lemma_named_trim_back(d);
    assert(pieces(l)) by {
        assert forall|i: int| 0 <= i < l.len() implies #[trigger] no_separator(l[i]) by {
            assert(l[i] == d[i]);
            assert(no_separator(d[i]));
        }
    }
    if l.len() > 0 {
        assert(l[0] == d[0]);
    }
    assert(cs.subrange(0, cb.len() as int) == cb);
    assert(cs =~= cb + named(sp).skip(m as int)) by {
        assert forall|i: int| 0 <= i < cs.len() implies cs[i] == (cb + named(sp).skip(
            m as int,
        ))[i] by {
            if i < cb.len() {
                assert(cs.subrange(0, cb.len() as int)[i] == cs[i]);
            }
        }
    }
    l
}

/// Splits `s` at every separator.
pub fn split_segments(s: &[u8]) -> (r: Vec<Vec<u8>>)
    ensures
        bytes_list(r@) == segments(s@),
{
    let mut done: Vec<Vec<u8>> = Vec::new();
    let mut cur: Vec<u8> = Vec::new();
    let n = s.len();
    assert(s@.take(0) =~= Seq::<u8>::empty());
    assert(bytes_list(done@).push(cur@) =~= segments(s@.take(0)));
    for i in 0..n
        invariant
            n == s@.len(),
            bytes_list(done@).push(cur@) == segments(s@.take(i as int)),
    {
        let b = s[i];
        let ghost prev = segments(s@.take(i as int));
        assert(s@.take(i + 1).drop_last() =~= s@.take(i as int));
        assert(s@.take(i + 1).last() == b);
        if b == SEPARATOR {
            let ghost old_done = done@;
            let ghost old_cur = cur@;
            done.push(cur);
            cur = Vec::new();
            assert(bytes_list(done@) =~= bytes_list(old_done).push(old_cur));
            assert(bytes_list(done@).push(cur@) =~= prev.push(Seq::<u8>::empty()));
        } else {
            cur.push(b);
            assert(bytes_list(done@).push(cur@) =~= prev.update(prev.len() - 1, prev.last().push(b)));
        }
    }
    assert(s@.take(n as int) =~= s@);
    let ghost old_done = done@;
    let ghost last = cur@;
    done.push(cur);
    assert(bytes_list(done@) =~= bytes_list(old_done).push(last));
    done
}

pub fn copy_bytes(v: &[u8]) -> (r: Vec<u8>)
    ensures
        r@ == v@,
{
    let mut r: Vec<u8> = Vec::new();
    let n = v.len();
    for i in 0..n
        invariant
            n == v@.len(),
            r@ == v@.take(i as int),
    {
        r.push(v[i]);
        assert(r@ =~= v@.take(i + 1));
    }
    assert(v@.take(n as int) =~= v@);
    r
}

pub(crate) fn bytes_eq(a: &[u8], b: &[u8]) -> (r: bool)
    ensures
        r == (a@ == b@),
{
    if a.len() != b.len() {
        return false;
    }
    let n = a.len();
    for i in 0..n
        invariant
            n == a@.len(),
            n == b@.len(),
            forall|k: int| 0 <= k < i ==> a@[k] == b@[k],
    {
        if a[i] != b[i] {
            return false;
        }
    }
    assert(a@ =~= b@);
    true
}

fn is_named_exec(seg: &[u8]) -> (r: bool)
    ensures
        r == is_named(seg@),
{
    seg.len() > 1 || (seg.len() == 1 && seg[0] != DOT)
}

/// The components of `s`.
fn split_components(s: &[u8]) -> (r: Vec<Vec<u8>>)
    ensures
        bytes_list(r@) == components(s@),
{
    let segs = split_segments(s);
    let mut r: Vec<Vec<u8>> = Vec::new();
    if s.len() > 0 && s[0] == SEPARATOR {
        let mut t: Vec<u8> = Vec::new();
        t.push(SEPARATOR);
        r.push(t);
        assert(r@[0]@ =~= seq![SEPARATOR]);
    } else if s.len() > 0 && s[0] == DOT && (s.len() == 1 || s[1] == SEPARATOR) {
        let mut t: Vec<u8> = Vec::new();
        t.push(DOT);
        r.push(t);
        assert(r@[0]@ =~= seq![DOT]);
    }
    let ghost start = bytes_list(r@);
    assert(start =~= start_components(s@));
    let n = segs.len();
    let ghost l = bytes_list(segs@);
    assert(l.take(0) =~= Seq::<Seq<u8>>::empty());
    for i in 0..n
        invariant
            n == segs@.len(),
            l == bytes_list(segs@),
            bytes_list(r@) == start + named(l.take(i as int)),
    {
        assert(l.take(i + 1).drop_last() =~= l.take(i as int));
        assert(l.take(i + 1).last() == segs@[i as int]@);
        if is_named_exec(segs[i].as_slice()) {
            let ghost before = r@;
            let c = copy_bytes(segs[i].as_slice());
            r.push(c);
            assert(bytes_list(r@) =~= bytes_list(before).push(c@));
            assert(bytes_list(r@) =~= start + named(l.take(i + 1)));
        }
    }
    assert(l.take(n as int) =~= l);
    r
}

fn append_bytes(out: &mut Vec<u8>, v: &[u8])
    ensures
        final(out)@ == old(out)@ + v@,
{
    let n = v.len();
    let ghost start = out@;
    for i in 0..n
        invariant
            n == v@.len(),
            out@ == start + v@.take(i as int),
    {
        out.push(v[i]);
        assert(out@ =~= start + v@.take(i + 1));
    }
    assert(v@.take(n as int) =~= v@);
}

/// `Path::join` on Unix, on byte strings.
pub fn join_path(base: &[u8], p: &[u8]) -> (r: Vec<u8>)
    ensures
        r@ == join_path_spec(base@, p@),
{
    if p.len() > 0 && p[0] == SEPARATOR {
        return copy_bytes(p);
    }
    let mut r = copy_bytes(base);
    if base.len() > 0 && base[base.len() - 1] != SEPARATOR {
        r.push(SEPARATOR);
    }
    append_bytes(&mut r, p);
    r
}

/// Joins the pieces of `segs` from `j` on, without the pieces that name
/// nothing at the back; also gives where those trailing pieces begin.
fn join_trimmed(segs: &Vec<Vec<u8>>, j: usize) -> (r: (Vec<u8>, usize))
    requires
        j <= segs@.len(),
    ensures
        j <= r.1 <= segs@.len(),
        trim_back(bytes_list(segs@).subrange(j as int, segs@.len() as int)) == bytes_list(
            segs@,
        ).subrange(j as int, r.1 as int),
        r.0@ == join_segments(bytes_list(segs@).subrange(j as int, r.1 as int)),
{
    let ghost l = bytes_list(segs@);
    let n = segs.len();
    let mut e: usize = n;
    while e > j && !is_named_exec(segs[e - 1].as_slice())
        invariant
            n == segs@.len(),
            l == bytes_list(segs@),
            j <= e <= n,
            trim_back(l.subrange(j as int, n as int)) == trim_back(l.subrange(j as int, e as int)),
        decreases e,
    {
        assert(l.subrange(j as int, e as int).drop_last() =~= l.subrange(j as int, e - 1));
        e = e - 1;
    }
    assert(trim_back(l.subrange(j as int, e as int)) == l.subrange(j as int, e as int));
    let mut out: Vec<u8> = Vec::new();
    let mut t: usize = j;
    assert(l.subrange(j as int, j as int) =~= Seq::<Seq<u8>>::empty());
    while t < e
        invariant
            n == segs@.len(),
            l == bytes_list(segs@),
            j <= t <= e <= n,
            out@ == join_segments(l.subrange(j as int, t as int)),
        decreases e - t,
    {
        let ghost sub = l.subrange(j as int, t + 1);
        assert(sub.drop_last() =~= l.subrange(j as int, t as int));
        assert(sub.last() == segs@[t as int]@);
        if t > j {
            out.push(SEPARATOR);
        }
        append_bytes(&mut out, segs[t].as_slice());
        if t == j {
            assert(out@ =~= sub[0]);
        } else {
            assert(out@ =~= join_segments(l.subrange(j as int, t as int)) + seq![SEPARATOR] + sub.last());
        }
        t = t + 1;
    }
    (out, e)
}

/// `Path::strip_prefix` on Unix, on byte strings: `None` where `base` does
/// not begin `s` component by component.
pub fn strip_prefix(s: &[u8], base: &[u8]) -> (r: Option<Vec<u8>>)
    ensures
        match r {
            Some(v) => strip_prefix_spec(s@, base@) == Some(v@),
            None => strip_prefix_spec(s@, base@) is None,
        },
{
    let cs = split_components(s);
    let cb = split_components(base);
    let ghost lcs = bytes_list(cs@);
    let ghost lcb = bytes_list(cb@);
    assert(lcs.len() == cs@.len() && lcb.len() == cb@.len());
    let segs = split_segments(s);
    let ghost l = bytes_list(segs@);
    let n = segs.len();
    assert(l.subrange(0, n as int) =~= l);
    if cb.len() == 0 {
        let (out, e) = join_trimmed(&segs, 0);
        if e == 0 {
            assert(trim_back(segments(s@)).len() == 0);
            let mut r: Vec<u8> = Vec::new();
            if s.len() > 0 && s[0] == SEPARATOR {
                r.push(SEPARATOR);
                assert(r@ =~= seq![SEPARATOR]);
            } else if s.len() > 0 && s[0] == DOT && (s.len() == 1 || s[1] == SEPARATOR) {
                r.push(DOT);
                assert(r@ =~= seq![DOT]);
            } else {
                assert(r@ =~= Seq::<u8>::empty());
            }
            return Some(r);
        }
        assert(trim_back(segments(s@)) == l.subrange(0, e as int));
        return Some(out);
    }
    if cb.len() > cs.len() {
        return None;
    }
    let k = cb.len();
    for i in 0..k
        invariant
            k == cb@.len(),
            k <= cs@.len(),
            lcs == bytes_list(cs@),
            lcb == bytes_list(cb@),
            lcs == components(s@),
            lcb == components(base@),
            forall|t: int| 0 <= t < i ==> lcs[t] == lcb[t],
    {
        if !bytes_eq(cs[i].as_slice(), cb[i].as_slice()) {
            assert(lcs.subrange(0, k as int)[i as int] != lcb[i as int]);
            return None;
        }
    }
    assert(lcs.subrange(0, k as int) =~= lcb);
    let start: usize = if s.len() > 0 && s[0] == SEPARATOR {
        1
    } else if s.len() > 0 && s[0] == DOT && (s.len() == 1 || s[1] == SEPARATOR) {
        1
    } else {
        0
    };
    assert(start == start_components(s@).len());
    let m = k - start;
    let mut j: usize = 0;
    let mut rem: usize = m;
    while j < n
        invariant
            n == segs@.len(),
            l == bytes_list(segs@),
            j <= n,
            drop_front(l, m as nat) == drop_front(l.subrange(j as int, n as int), rem as nat),
        ensures
            j <= n,
            drop_front(l, m as nat) == l.subrange(j as int, n as int),
        decreases n - j,
    {
        let ghost sub = l.subrange(j as int, n as int);
        assert(sub[0] == segs@[j as int]@);
        assert(sub.drop_first() =~= l.subrange(j + 1, n as int));
        let named_here = is_named_exec(segs[j].as_slice());
        if rem == 0 && named_here {
            break;
        }
        if named_here {
            rem = rem - 1;
        }
        j = j + 1;
    }
    let (out, _e) = join_trimmed(&segs, j);
    Some(out)
}

} // verus!
