//! Character-level helpers shared by the parsers of this crate.
//!
//! Strings are viewed as `Seq<char>`; the executable helpers here move
//! between `&str`/`String` and `Vec<char>` and state exactly what they return.

use vstd::prelude::*;

verus! {

/// The characters of `s`, in order.
pub fn chars_of(s: &str) -> (v: Vec<char>)
    ensures
        v@ == s@,
{
    let mut v: Vec<char> = Vec::new();
    for c in it: s.chars()
        invariant
            v@ == it.seq().take(it.index() as int),
            it.seq() == s@,
    {
        v.push(c);
    }
    v
}

/// Collects characters into a `String` (std's `FromIterator<char>` for
/// `String`); the contract says the string holds exactly these characters.
#[verifier::external_body]
pub(crate) fn string_from_chars(v: &Vec<char>) -> (s: String)
    ensures
        s@ == v@,
{
    v.iter().collect()
}


/// `p` is a prefix of `s`.
pub open spec fn has_prefix(s: Seq<char>, p: Seq<char>) -> bool {
    p.len() <= s.len() && s.take(p.len() as int) == p
}

/// `p` is a suffix of `s`.
pub open spec fn has_suffix(s: Seq<char>, p: Seq<char>) -> bool {
    p.len() <= s.len() && s.skip(s.len() - p.len()) == p
}

/// `c` occurs in `s`.
pub open spec fn has_char(s: Seq<char>, c: char) -> bool {
    exists|i: int| 0 <= i < s.len() && s[i] == c
}

/// Removes `p` from the front of `s` as many times as it is there
/// (the behaviour of `str::trim_start_matches` with a string pattern).
pub open spec fn trim_start_all(s: Seq<char>, p: Seq<char>) -> Seq<char>
    decreases s.len(),
{
    if p.len() > 0 && has_prefix(s, p) {
        trim_start_all(s.skip(p.len() as int), p)
    } else {
        s
    }
}

/// The longest prefix of `s` holding none of the characters of `stops`
/// (the first piece of `str::split` with a set of characters).
pub open spec fn take_until_any(s: Seq<char>, stops: Seq<char>) -> Seq<char>
    decreases s.len(),
{
    if s.len() == 0 {
        s
    } else if stops.contains(s[0]) {
        Seq::empty()
    } else {
        seq![s[0]] + take_until_any(s.drop_first(), stops)
    }
}

/// Element-wise equality of two character vectors.
pub fn chars_eq(a: &Vec<char>, b: &Vec<char>) -> (r: bool)
    ensures
        r == (a@ == b@),
{
    if a.len() != b.len() {
        return false;
    }
    let mut i: usize = 0;
    while i < a.len()
        invariant
            a.len() == b.len(),
            i <= a.len(),
            forall|j: int| 0 <= j < i ==> a@[j] == b@[j],
        decreases a.len() - i,
    {
        if a[i] != b[i] {
            return false;
        }
        i += 1;
    }
    assert(a@ =~= b@);
    true
}

/// `p` occurs in `s` starting at `at`.
pub fn matches_at(s: &Vec<char>, at: usize, p: &Vec<char>) -> (r: bool)
    ensures
        r == (at + p.len() <= s.len() && s@.subrange(at as int, at + p.len()) == p@),
{
    if at > s.len() || p.len() > s.len() - at {
        return false;
    }
    let mut i: usize = 0;
    while i < p.len()
        invariant
            at + p.len() <= s.len(),
            i <= p.len(),
            forall|j: int| 0 <= j < i ==> s@[at + j] == p@[j],
        decreases p.len() - i,
    {
        if s[at + i] != p[i] {
            assert(s@.subrange(at as int, at + p.len())[i as int] != p@[i as int]);
            return false;
        }
        i += 1;
    }
    assert(s@.subrange(at as int, at + p.len()) =~= p@);
    true
}

/// `p` is a prefix of `s`.
pub fn starts_with(s: &Vec<char>, p: &Vec<char>) -> (r: bool)
    ensures
        r == has_prefix(s@, p@),
{
    let r = matches_at(s, 0, p);
    assert(s@.take(p.len() as int) =~= s@.subrange(0, p.len() as int));
    r
}

/// `p` is a suffix of `s`.
pub fn ends_with(s: &Vec<char>, p: &Vec<char>) -> (r: bool)
    ensures
        r == has_suffix(s@, p@),
{
    if p.len() > s.len() {
        return false;
    }
    let r = matches_at(s, s.len() - p.len(), p);
    assert(s@.skip(s.len() - p.len()) =~= s@.subrange(s.len() - p.len(), s.len() as int));
    r
}

/// `c` occurs in `s`.
pub fn contains_char(s: &Vec<char>, c: char) -> (r: bool)
    ensures
        r == has_char(s@, c),
{
    let mut i: usize = 0;
    while i < s.len()
        invariant
            i <= s.len(),
            forall|j: int| 0 <= j < i ==> s@[j] != c,
        decreases s.len() - i,
    {
        if s[i] == c {
            return true;
        }
        i += 1;
    }
    false
}

/// A copy of `s[from..to]`.
pub fn slice_chars(s: &Vec<char>, from: usize, to: usize) -> (r: Vec<char>)
    requires
        from <= to <= s.len(),
    ensures
        r@ == s@.subrange(from as int, to as int),
{
    let mut r: Vec<char> = Vec::new();
    let mut i = from;
    while i < to
        invariant
            from <= i <= to <= s.len(),
            r@ == s@.subrange(from as int, i as int),
        decreases to - i,
    {
        r.push(s[i]);
        i += 1;
        assert(r@ =~= s@.subrange(from as int, i as int));
    }
    r
}

/// Appends all of `s` to `out`.
pub fn push_all(out: &mut Vec<char>, s: &Vec<char>)
    ensures
        final(out)@ == old(out)@ + s@,
{
    let ghost start = out@;
    let mut i: usize = 0;
    while i < s.len()
        invariant
            i <= s.len(),
            out@ == start + s@.take(i as int),
        decreases s.len() - i,
    {
        out.push(s[i]);
        i += 1;
        assert(out@ =~= start + s@.take(i as int));
    }
    assert(s@.take(s.len() as int) =~= s@);
}

/// Appends the characters of `s` to `out`.
pub fn push_str(out: &mut Vec<char>, s: &str)
    ensures
        final(out)@ == old(out)@ + s@,
{
    let v = chars_of(s);
    push_all(out, &v);
}

/// `str::trim_start_matches` with a non-empty string pattern.
pub fn trim_start_matches(s: &Vec<char>, p: &Vec<char>) -> (r: Vec<char>)
    requires
        p.len() > 0,
    ensures
        r@ == trim_start_all(s@, p@),
{
    let mut at: usize = 0;
    assert(s@.skip(0) =~= s@);
    while matches_at(s, at, p)
        invariant
            at <= s.len(),
            p.len() > 0,
            trim_start_all(s@.skip(at as int), p@) == trim_start_all(s@, p@),
        decreases s.len() - at,
    {
        assert(s@.skip(at as int).take(p.len() as int) =~= s@.subrange(at as int, at + p.len()));
        assert(s@.skip(at as int).skip(p.len() as int) =~= s@.skip(at + p.len()));
        at = at + p.len();
    }
    proof {
        if has_prefix(s@.skip(at as int), p@) {
            assert(s@.skip(at as int).take(p.len() as int) =~= s@.subrange(at as int, at + p.len()));
        }
    }
    let r = slice_chars(s, at, s.len());
    assert(r@ =~= s@.skip(at as int));
    r
}

/// The first piece of `s` split at any character of `stops`.
pub fn prefix_before_any(s: &Vec<char>, stops: &Vec<char>) -> (r: Vec<char>)
    ensures
        r@ == take_until_any(s@, stops@),
{
    let mut i: usize = 0;
    let mut stopped = false;
    while i < s.len() && !stopped
        invariant
            i <= s.len(),
            forall|j: int| 0 <= j < i ==> !stops@.contains(#[trigger] s@[j]),
            stopped ==> i < s.len() && stops@.contains(s@[i as int]),
        decreases s.len() - i + (if stopped { 0int } else { 1int }),
    {
        if contains_char(stops, s[i]) {
            stopped = true;
        } else {
            i += 1;
        }
    }
    let r = slice_chars(s, 0, i);
    proof { lemma_take_until_any_at(s@, stops@, i as int); }
    r
}

pub proof fn lemma_take_until_any_at(s: Seq<char>, stops: Seq<char>, i: int)
    requires
        0 <= i <= s.len(),
        forall|j: int| 0 <= j < i ==> !stops.contains(#[trigger] s[j]),
        i < s.len() ==> stops.contains(s[i]),
    ensures
        take_until_any(s, stops) == s.subrange(0, i),
    decreases i,
{
    if i == 0 {
        if s.len() > 0 {
        }
        assert(s.subrange(0, 0) =~= Seq::<char>::empty());
    } else {
        assert(!stops.contains(s[0]));
        let t = s.drop_first();
        assert forall|j: int| 0 <= j < i - 1 implies !stops.contains(#[trigger] t[j]) by {
            assert(t[j] == s[j + 1]);
        }
        if i - 1 < t.len() {
            assert(t[i - 1] == s[i]);
        }
        lemma_take_until_any_at(t, stops, i - 1);
        assert(seq![s[0]] + t.subrange(0, i - 1) =~= s.subrange(0, i));
    }
}


/// The views of a sequence of character vectors.
pub open spec fn views(v: Seq<Vec<char>>) -> Seq<Seq<char>> {
    v.map_values(|x: Vec<char>| x@)
}

/// One step of splitting at `sep` while dropping empty pieces: the state is
/// the finished pieces and the piece being read.
pub open spec fn seg_step(st: (Seq<Seq<char>>, Seq<char>), c: char, sep: char) -> (
    Seq<Seq<char>>,
    Seq<char>,
) {
    if c == sep {
        (if st.1.len() > 0 { st.0.push(st.1) } else { st.0 }, Seq::empty())
    } else {
        (st.0, st.1.push(c))
    }
}

/// The splitting state after reading all of `s` from state `st`.
pub open spec fn seg_fold(st: (Seq<Seq<char>>, Seq<char>), s: Seq<char>, sep: char) -> (
    Seq<Seq<char>>,
    Seq<char>,
)
    decreases s.len(),
{
    if s.len() == 0 {
        st
    } else {
        seg_step(seg_fold(st, s.drop_last(), sep), s.last(), sep)
    }
}

/// Closes the piece being read, unless it is empty.
pub open spec fn seg_finish(st: (Seq<Seq<char>>, Seq<char>)) -> Seq<Seq<char>> {
    if st.1.len() > 0 {
        st.0.push(st.1)
    } else {
        st.0
    }
}

/// The non-empty pieces of `s` between occurrences of `sep`, in order
/// (`s.split(sep).filter(|p| !p.is_empty())`).
pub open spec fn segments(s: Seq<char>, sep: char) -> Seq<Seq<char>> {
    seg_finish(seg_fold((Seq::empty(), Seq::empty()), s, sep))
}

/// The pieces joined with `sep` between consecutive pieces.
pub open spec fn join_with(parts: Seq<Seq<char>>, sep: Seq<char>) -> Seq<char>
    decreases parts.len(),
{
    if parts.len() == 0 {
        Seq::empty()
    } else if parts.len() == 1 {
        parts[0]
    } else {
        join_with(parts.drop_last(), sep) + sep + parts.last()
    }
}

/// Splits `s` at `sep`, dropping empty pieces.
pub fn split_nonempty(s: &Vec<char>, sep: char) -> (r: Vec<Vec<char>>)
    ensures
        views(r@) == segments(s@, sep),
{
    let mut done: Vec<Vec<char>> = Vec::new();
    let mut cur: Vec<char> = Vec::new();
    let mut i: usize = 0;
    assert(s@.take(0) =~= Seq::<char>::empty());
    while i < s.len()
        invariant
            i <= s.len(),
            (views(done@), cur@) == seg_fold((Seq::empty(), Seq::empty()), s@.take(i as int), sep),
        decreases s.len() - i,
    {
        let ghost before = (views(done@), cur@);
        assert(s@.take(i + 1).drop_last() =~= s@.take(i as int));
        if s[i] == sep {
            if cur.len() > 0 {
                let piece = cur;
                done.push(piece);
                assert(views(done@) =~= before.0.push(before.1));
            }
            cur = Vec::new();
        } else {
            cur.push(s[i]);
        }
        i += 1;
    }
    assert(s@.take(s.len() as int) =~= s@);
    if cur.len() > 0 {
        let ghost before = (views(done@), cur@);
        done.push(cur);
        assert(views(done@) =~= before.0.push(before.1));
    }
    done
}

/// Joins `parts[from..to]` with `sep`.
pub fn join_range(parts: &Vec<Vec<char>>, from: usize, to: usize, sep: &Vec<char>) -> (r: Vec<char>)
    requires
        from <= to <= parts.len(),
    ensures
        r@ == join_with(views(parts@).subrange(from as int, to as int), sep@),
{
    let mut r: Vec<char> = Vec::new();
    let mut i = from;
    assert(views(parts@).subrange(from as int, from as int) =~= Seq::<Seq<char>>::empty());
    while i < to
        invariant
            from <= i <= to <= parts.len(),
            r@ == join_with(views(parts@).subrange(from as int, i as int), sep@),
        decreases to - i,
    {
        let ghost prev = views(parts@).subrange(from as int, i as int);
        let ghost next = views(parts@).subrange(from as int, i + 1);
        assert(next.drop_last() =~= prev);
        if i > from {
            push_all(&mut r, sep);
        }
        push_all(&mut r, &parts[i]);
        proof {
            if i == from {
                assert(r@ =~= next[0]);
            } else {
                assert(r@ =~= join_with(prev, sep@) + sep@ + next.last());
            }
        }
        i += 1;
    }
    r
}


/// Reading `x + y` is reading `x`, then `y`.
pub proof fn lemma_seg_fold_append(
    st: (Seq<Seq<char>>, Seq<char>),
    x: Seq<char>,
    y: Seq<char>,
    sep: char,
)
    ensures
        seg_fold(st, x + y, sep) == seg_fold(seg_fold(st, x, sep), y, sep),
    decreases y.len(),
{
    if y.len() == 0 {
        assert(x + y =~= x);
    } else {
        assert((x + y).drop_last() =~= x + y.drop_last());
        assert((x + y).last() == y.last());
        lemma_seg_fold_append(st, x, y.drop_last(), sep);
    }
}

/// Reading from a state with finished pieces `d` and nothing pending only
/// adds to `d`.
pub proof fn lemma_seg_fold_from_done(d: Seq<Seq<char>>, y: Seq<char>, sep: char)
    ensures
        seg_fold((d, Seq::empty()), y, sep).0 == d + seg_fold((Seq::empty(), Seq::empty()), y, sep).0,
        seg_fold((d, Seq::empty()), y, sep).1 == seg_fold((Seq::empty(), Seq::empty()), y, sep).1,
    decreases y.len(),
{
    if y.len() == 0 {
        assert(d + Seq::<Seq<char>>::empty() =~= d);
    } else {
        lemma_seg_fold_from_done(d, y.drop_last(), sep);
        let a = seg_fold((d, Seq::empty()), y.drop_last(), sep);
        let b = seg_fold((Seq::empty(), Seq::empty()), y.drop_last(), sep);
        if y.last() == sep && b.1.len() > 0 {
            assert(a.0.push(a.1) =~= d + b.0.push(b.1));
        }
    }
}

/// Splitting at a separator distributes over the pieces on either side of it.
pub proof fn lemma_segments_around_sep(a: Seq<char>, b: Seq<char>, sep: char)
    ensures
        segments(a + seq![sep] + b, sep) == segments(a, sep) + segments(b, sep),
{
    let init = (Seq::<Seq<char>>::empty(), Seq::<char>::empty());
    lemma_seg_fold_append(init, a + seq![sep], b, sep);
    assert((a + seq![sep]).drop_last() =~= a);
    let sa = seg_fold(init, a + seq![sep], sep);
    assert(sa == (segments(a, sep), Seq::<char>::empty()));
    lemma_seg_fold_from_done(segments(a, sep), b, sep);
    let fb = seg_fold(init, b, sep);
    if fb.1.len() > 0 {
        assert((segments(a, sep) + fb.0).push(fb.1) =~= segments(a, sep) + fb.0.push(fb.1));
    }
}

/// A non-empty piece without the separator splits into itself.
pub proof fn lemma_segments_single(x: Seq<char>, sep: char)
    requires
        x.len() > 0,
        !has_char(x, sep),
    ensures
        segments(x, sep) == seq![x],
{
    lemma_seg_fold_no_sep(x, sep);
    assert(Seq::<Seq<char>>::empty().push(x) =~= seq![x]);
}

proof fn lemma_seg_fold_no_sep(x: Seq<char>, sep: char)
    requires
        !has_char(x, sep),
    ensures
        seg_fold((Seq::empty(), Seq::empty()), x, sep) == (Seq::<Seq<char>>::empty(), x),
    decreases x.len(),
{
    if x.len() > 0 {
        assert(!has_char(x.drop_last(), sep)) by {
            if has_char(x.drop_last(), sep) {
                let i = choose|i: int| 0 <= i < x.drop_last().len() && x.drop_last()[i] == sep;
                assert(x[i] == sep);
            }
        }
        lemma_seg_fold_no_sep(x.drop_last(), sep);
        assert(x[x.len() - 1] != sep);
        assert(x.drop_last().push(x.last()) =~= x);
    } else {
        assert(x =~= Seq::<char>::empty());
    }
}

/// Reading `s` yields finished pieces that are non-empty and free of the
/// separator, and a pending piece free of it.
proof fn lemma_seg_fold_plain(s: Seq<char>, sep: char)
    ensures
        forall|i: int|
            0 <= i < seg_fold((Seq::empty(), Seq::empty()), s, sep).0.len() ==> #[trigger] seg_fold(
                (Seq::empty(), Seq::empty()),
                s,
                sep,
            ).0[i].len() > 0 && !has_char(seg_fold((Seq::empty(), Seq::empty()), s, sep).0[i], sep),
        !has_char(seg_fold((Seq::empty(), Seq::empty()), s, sep).1, sep),
    decreases s.len(),
{
    if s.len() > 0 {
        lemma_seg_fold_plain(s.drop_last(), sep);
        let prev = seg_fold((Seq::empty(), Seq::empty()), s.drop_last(), sep);
        let c = s.last();
        if c == sep {
            assert(!has_char(Seq::<char>::empty(), sep));
            if prev.1.len() > 0 {
                let d = prev.0.push(prev.1);
                assert forall|i: int| 0 <= i < d.len() implies #[trigger] d[i].len() > 0 && !has_char(d[i], sep) by {
                    if i < prev.0.len() {
                        assert(d[i] == prev.0[i]);
                    }
                }
            }
        } else {
            let p = prev.1.push(c);
            if has_char(p, sep) {
                let i = choose|i: int| 0 <= i < p.len() && p[i] == sep;
                if i < prev.1.len() {
                    assert(prev.1[i] == sep);
                }
            }
        }
    }
}

/// Every piece of `segments(s, sep)` is non-empty and holds no `sep`.
pub proof fn lemma_segments_plain(s: Seq<char>, sep: char)
    ensures
        forall|i: int|
            0 <= i < segments(s, sep).len() ==> #[trigger] segments(s, sep)[i].len() > 0 && !has_char(
                segments(s, sep)[i],
                sep,
            ),
{
    lemma_seg_fold_plain(s, sep);
    let st = seg_fold((Seq::empty(), Seq::empty()), s, sep);
    if st.1.len() > 0 {
        let d = st.0.push(st.1);
        assert forall|i: int| 0 <= i < d.len() implies #[trigger] d[i].len() > 0 && !has_char(d[i], sep) by {
            if i < st.0.len() {
                assert(d[i] == st.0[i]);
            }
        }
    }
}

/// Splitting a join of non-empty, separator-free pieces gives the pieces back.
pub proof fn lemma_segments_of_join(xs: Seq<Seq<char>>, sep: char)
    requires
        forall|i: int| 0 <= i < xs.len() ==> #[trigger] xs[i].len() > 0 && !has_char(xs[i], sep),
    ensures
        segments(join_with(xs, seq![sep]), sep) == xs,
    decreases xs.len(),
{
    if xs.len() == 0 {
        assert(segments(Seq::empty(), sep) =~= xs);
    } else if xs.len() == 1 {
        assert(xs[0].len() > 0);
        lemma_segments_single(xs[0], sep);
        assert(seq![xs[0]] =~= xs);
    } else {
        let init = xs.drop_last();
        assert forall|i: int| 0 <= i < init.len() implies #[trigger] init[i].len() > 0 && !has_char(
            init[i],
            sep,
        ) by {
            assert(init[i] == xs[i]);
        }
        lemma_segments_of_join(init, sep);
        assert(xs[xs.len() - 1].len() > 0);
        lemma_segments_single(xs.last(), sep);
        lemma_segments_around_sep(join_with(init, seq![sep]), xs.last(), sep);
        assert(init + seq![xs.last()] =~= xs);
    }
}


/// A path whose pieces between `sep` are all non-empty: it neither starts
/// nor ends with `sep`, and holds no two `sep` in a row.
pub open spec fn no_empty_segments(s: Seq<char>, sep: char) -> bool {
    &&& s.len() > 0
    &&& s[0] != sep
    &&& s.last() != sep
    &&& forall|i: int| 0 <= i < s.len() - 1 ==> !(#[trigger] s[i] == sep && s[i + 1] == sep)
}

/// Joining a piece in front of at least one other puts the separator
/// between them.
pub proof fn lemma_join_prepend(a: Seq<char>, xs: Seq<Seq<char>>, sep: Seq<char>)
    requires
        xs.len() >= 1,
    ensures
        join_with(seq![a] + xs, sep) == a + sep + join_with(xs, sep),
    decreases xs.len(),
{
    let ys = seq![a] + xs;
    if xs.len() == 1 {
        assert(ys.drop_last() =~= seq![a]);
        assert(ys.last() == xs[0]);
        assert(join_with(seq![a], sep) == a);
        assert(join_with(xs, sep) == xs[0]);
        assert(join_with(ys, sep) == join_with(ys.drop_last(), sep) + sep + ys.last());
    } else {
        lemma_join_prepend(a, xs.drop_last(), sep);
        assert(ys.drop_last() =~= seq![a] + xs.drop_last());
        assert(ys.last() == xs.last());
        assert(join_with(ys, sep) =~= a + sep + join_with(xs, sep));
    }
}

/// Joining the pieces of a path without empty pieces gives the path back.
#[verifier::rlimit(30)]
pub proof fn lemma_join_of_segments(s: Seq<char>, sep: char)
    requires
        no_empty_segments(s, sep),
    ensures
        join_with(segments(s, sep), seq![sep]) == s,
        segments(s, sep).len() >= 1,
    decreases s.len(),
{
    if !has_char(s, sep) {
        lemma_segments_single(s, sep);
    } else {
        lemma_first_index_of(s, sep);
        let i = first_index_of(s, sep).unwrap();
        let a = s.take(i);
        let b = s.skip(i + 1);
        assert(i > 0);
        assert(i < s.len() - 1) by {
            if i == s.len() - 1 {
                assert(s.last() == s[i]);
            }
        }
        assert(s =~= a + seq![sep] + b);
        assert(!has_char(a, sep)) by {
            if has_char(a, sep) {
                let k = choose|k: int| 0 <= k < a.len() && a[k] == sep;
                assert(s[k] == sep);
            }
        }
        assert(a.len() > 0);
        lemma_segments_single(a, sep);
        assert(b[0] == s[i + 1]);
        assert(b[0] != sep) by {
            assert(!(s[i] == sep && s[i + 1] == sep));
        }
        assert(b.last() == s.last());
        assert forall|j: int| 0 <= j < b.len() - 1 implies !(#[trigger] b[j] == sep && b[j + 1] == sep) by {
            assert(b[j] == s[i + 1 + j]);
            assert(b[j + 1] == s[i + 1 + j + 1]);
            assert(!(s[i + 1 + j] == sep && s[i + 1 + j + 1] == sep));
        }
        lemma_join_of_segments(b, sep);
        lemma_segments_around_sep(a, b, sep);
        lemma_join_prepend(a, segments(b, sep), seq![sep]);
        assert(segments(s, sep) == seq![a] + segments(b, sep));
    }
}

/// A character of a piece is a character of the join.
pub proof fn lemma_char_in_join(xs: Seq<Seq<char>>, sep: Seq<char>, i: int, c: char)
    requires
        0 <= i < xs.len(),
        has_char(xs[i], c),
    ensures
        has_char(join_with(xs, sep), c),
    decreases xs.len(),
{
    let k = choose|k: int| 0 <= k < xs[i].len() && xs[i][k] == c;
    if xs.len() == 1 {
    } else {
        let init = xs.drop_last();
        let j = join_with(init, sep);
        if i < xs.len() - 1 {
            assert(init[i] == xs[i]);
            lemma_char_in_join(init, sep, i, c);
            let m = choose|m: int| 0 <= m < j.len() && j[m] == c;
            assert((j + sep + xs.last())[m] == c);
        } else {
            assert((j + sep + xs.last())[j.len() + sep.len() + k] == c);
        }
    }
}

/// A join of pieces without `c`, with a separator without `c`, has no `c`.
pub proof fn lemma_join_without_char(xs: Seq<Seq<char>>, sep: Seq<char>, c: char)
    requires
        forall|i: int| 0 <= i < xs.len() ==> !has_char(#[trigger] xs[i], c),
        !has_char(sep, c),
    ensures
        !has_char(join_with(xs, sep), c),
    decreases xs.len(),
{
    if xs.len() == 1 {
        assert(!has_char(xs[0], c));
    } else if xs.len() > 1 {
        let init = xs.drop_last();
        assert forall|i: int| 0 <= i < init.len() implies !has_char(#[trigger] init[i], c) by {
            assert(init[i] == xs[i]);
        }
        lemma_join_without_char(init, sep, c);
        assert(!has_char(xs[xs.len() - 1], c));
        lemma_no_char_concat(join_with(init, sep), sep, c);
        lemma_no_char_concat(join_with(init, sep) + sep, xs.last(), c);
    }
}

/// Neither side holds `c`, so the concatenation does not.
pub proof fn lemma_no_char_concat(a: Seq<char>, b: Seq<char>, c: char)
    requires
        !has_char(a, c),
        !has_char(b, c),
    ensures
        !has_char(a + b, c),
{
    if has_char(a + b, c) {
        let i = choose|i: int| 0 <= i < (a + b).len() && (a + b)[i] == c;
        if i < a.len() {
            assert(a[i] == c);
        } else {
            assert(b[i - a.len()] == c);
        }
    }
}


/// The views of a sequence of strings.
pub open spec fn string_views(v: Seq<String>) -> Seq<Seq<char>> {
    v.map_values(|x: String| x@)
}

/// The characters of each string.
pub fn strings_to_chars(v: &[String]) -> (r: Vec<Vec<char>>)
    ensures
        views(r@) == string_views(v@),
{
    let mut r: Vec<Vec<char>> = Vec::new();
    let mut i: usize = 0;
    while i < v.len()
        invariant
            i <= v.len(),
            views(r@) == string_views(v@).take(i as int),
        decreases v.len() - i,
    {
        let ghost old_r = r@;
        let c = chars_of(v[i].as_str());
        r.push(c);
        assert(views(r@) =~= views(old_r).push(c@));
        i += 1;
        assert(views(r@) =~= string_views(v@).take(i as int));
    }
    assert(string_views(v@).take(v.len() as int) =~= string_views(v@));
    r
}

/// A string for each character vector.
pub fn chars_to_strings(v: &Vec<Vec<char>>) -> (r: Vec<String>)
    ensures
        string_views(r@) == views(v@),
{
    let mut r: Vec<String> = Vec::new();
    let mut i: usize = 0;
    while i < v.len()
        invariant
            i <= v.len(),
            string_views(r@) == views(v@).take(i as int),
        decreases v.len() - i,
    {
        let ghost old_r = r@;
        let c = string_from_chars(&v[i]);
        r.push(c);
        assert(string_views(r@) =~= string_views(old_r).push(c@));
        i += 1;
        assert(string_views(r@) =~= views(v@).take(i as int));
    }
    assert(views(v@).take(v.len() as int) =~= views(v@));
    r
}

/// `x` is one of the vectors of `list`.
pub fn contains_chars(list: &Vec<Vec<char>>, x: &Vec<char>) -> (r: bool)
    ensures
        r == views(list@).contains(x@),
{
    let mut i: usize = 0;
    while i < list.len()
        invariant
            i <= list.len(),
            forall|j: int| 0 <= j < i ==> views(list@)[j] != x@,
        decreases list.len() - i,
    {
        if chars_eq(&list[i], x) {
            assert(views(list@)[i as int] == x@);
            return true;
        }
        i += 1;
    }
    false
}


/// The characters with the Unicode `White_Space` property, which
/// `char::is_whitespace` documents it tests for.
pub open spec fn is_ws(c: char) -> bool {
    ||| ('\u{9}' <= c && c <= '\u{d}')
    ||| c == ' '
    ||| c == '\u{85}'
    ||| c == '\u{a0}'
    ||| c == '\u{1680}'
    ||| ('\u{2000}' <= c && c <= '\u{200a}')
    ||| c == '\u{2028}'
    ||| c == '\u{2029}'
    ||| c == '\u{202f}'
    ||| c == '\u{205f}'
    ||| c == '\u{3000}'
}

/// `char::is_whitespace`.
pub fn is_whitespace(c: char) -> (r: bool)
    ensures
        r == is_ws(c),
{
    ('\u{9}' <= c && c <= '\u{d}') || c == ' ' || c == '\u{85}' || c == '\u{a0}' || c
        == '\u{1680}' || ('\u{2000}' <= c && c <= '\u{200a}') || c == '\u{2028}' || c
        == '\u{2029}' || c == '\u{202f}' || c == '\u{205f}' || c == '\u{3000}'
}

/// `s` with leading white space removed.
pub open spec fn trim_start(s: Seq<char>) -> Seq<char>
    decreases s.len(),
{
    if s.len() > 0 && is_ws(s[0]) {
        trim_start(s.drop_first())
    } else {
        s
    }
}

/// `s` with trailing white space removed.
pub open spec fn trim_end(s: Seq<char>) -> Seq<char>
    decreases s.len(),
{
    if s.len() > 0 && is_ws(s.last()) {
        trim_end(s.drop_last())
    } else {
        s
    }
}

/// `s` with leading and trailing white space removed (`str::trim`).
pub open spec fn trim(s: Seq<char>) -> Seq<char> {
    trim_end(trim_start(s))
}

/// `s` with every leading and trailing `c` removed (`str::trim_matches`).
pub open spec fn trim_char(s: Seq<char>, c: char) -> Seq<char>
    decreases s.len(),
{
    if s.len() > 0 && s[0] == c {
        trim_char(s.drop_first(), c)
    } else if s.len() > 0 && s.last() == c {
        trim_char(s.drop_last(), c)
    } else {
        s
    }
}

proof fn lemma_trim_start_skip(s: Seq<char>, i: int)
    requires
        0 <= i <= s.len(),
        forall|j: int| 0 <= j < i ==> is_ws(#[trigger] s[j]),
    ensures
        trim_start(s) == trim_start(s.skip(i)),
    decreases i,
{
    if i > 0 {
        let t = s.drop_first();
        assert forall|j: int| 0 <= j < i - 1 implies is_ws(#[trigger] t[j]) by {
            assert(t[j] == s[j + 1]);
        }
        lemma_trim_start_skip(t, i - 1);
        assert(t.skip(i - 1) =~= s.skip(i));
    } else {
        assert(s.skip(0) =~= s);
    }
}

proof fn lemma_trim_end_take(s: Seq<char>, i: int)
    requires
        0 <= i <= s.len(),
        forall|j: int| i <= j < s.len() ==> is_ws(#[trigger] s[j]),
    ensures
        trim_end(s) == trim_end(s.take(i)),
    decreases s.len() - i,
{
    if i < s.len() {
        let t = s.drop_last();
        assert forall|j: int| i <= j < t.len() implies is_ws(#[trigger] t[j]) by {
            assert(t[j] == s[j]);
        }
        assert(is_ws(s[s.len() - 1]));
        lemma_trim_end_take(t, i);
        assert(t.take(i) =~= s.take(i));
    } else {
        assert(s.take(i) =~= s);
    }
}

/// Neither the first nor the last character of `s` is white space.
pub open spec fn no_edge_ws(s: Seq<char>) -> bool {
    s.len() == 0 || (!is_ws(s[0]) && !is_ws(s.last()))
}

proof fn lemma_trim_start_front(s: Seq<char>)
    ensures
        trim_start(s).len() == 0 || !is_ws(trim_start(s)[0]),
    decreases s.len(),
{
    if s.len() > 0 && is_ws(s[0]) {
        lemma_trim_start_front(s.drop_first());
    }
}

proof fn lemma_trim_end_prefix(t: Seq<char>)
    ensures
        trim_end(t).len() <= t.len(),
        trim_end(t) == t.take(trim_end(t).len() as int),
        trim_end(t).len() == 0 || !is_ws(trim_end(t).last()),
    decreases t.len(),
{
    if t.len() > 0 && is_ws(t.last()) {
        let d = t.drop_last();
        lemma_trim_end_prefix(d);
        assert(d.take(trim_end(d).len() as int) =~= t.take(trim_end(d).len() as int));
    } else {
        assert(t.take(t.len() as int) =~= t);
    }
}

/// What `str::trim` gives begins and ends with no white space.
pub proof fn lemma_trim_no_edge_ws(s: Seq<char>)
    ensures
        no_edge_ws(trim(s)),
{
    let t = trim_start(s);
    lemma_trim_start_front(s);
    lemma_trim_end_prefix(t);
    let u = trim_end(t);
    if u.len() > 0 {
        assert(u[0] == t.take(u.len() as int)[0]);
    }
}

/// `str::trim` on characters.
pub fn trim_ws(s: &Vec<char>) -> (r: Vec<char>)
    ensures
        r@ == trim(s@),
{
    let mut lo: usize = 0;
    while lo < s.len() && is_whitespace(s[lo])
        invariant
            lo <= s.len(),
            forall|j: int| 0 <= j < lo ==> is_ws(#[trigger] s@[j]),
        decreases s.len() - lo,
    {
        lo += 1;
    }
    proof { lemma_trim_start_skip(s@, lo as int); }
    let mut hi: usize = s.len();
    while hi > lo && is_whitespace(s[hi - 1])
        invariant
            lo <= hi <= s.len(),
            forall|j: int| hi <= j < s.len() ==> is_ws(#[trigger] s@[j]),
        decreases hi,
    {
        hi -= 1;
    }
    let r = slice_chars(s, lo, hi);
    proof {
        let t = s@.skip(lo as int);
        assert(trim_start(t) == t);
        assert forall|j: int| hi - lo <= j < t.len() implies is_ws(#[trigger] t[j]) by {
            assert(t[j] == s@[lo + j]);
        }
        lemma_trim_end_take(t, hi - lo);
        let u = t.take(hi - lo);
        assert(u =~= s@.subrange(lo as int, hi as int));
        if u.len() > 0 {
            assert(u.last() == s@[hi - 1]);
        }
    }
    r
}

/// `str::trim` on a string slice.
pub fn trim_str(s: &str) -> (r: Vec<char>)
    ensures
        r@ == trim(s@),
{
    trim_ws(&chars_of(s))
}

/// `str::trim_matches` with a single character.
pub fn trim_matches_char(s: &Vec<char>, c: char) -> (r: Vec<char>)
    ensures
        r@ == trim_char(s@, c),
{
    let mut lo: usize = 0;
    let mut hi: usize = s.len();
    assert(s@.subrange(0, s.len() as int) =~= s@);
    while lo < hi && (s[lo] == c || s[hi - 1] == c)
        invariant
            lo <= hi <= s.len(),
            trim_char(s@.subrange(lo as int, hi as int), c) == trim_char(s@, c),
        decreases hi - lo,
    {
        let ghost cur = s@.subrange(lo as int, hi as int);
        if s[lo] == c {
            assert(cur.drop_first() =~= s@.subrange(lo + 1, hi as int));
            lo += 1;
        } else {
            assert(cur.drop_last() =~= s@.subrange(lo as int, hi - 1));
            hi -= 1;
        }
    }
    slice_chars(s, lo, hi)
}

/// One step of `str::lines`: the finished lines and the line being read.
pub open spec fn line_step(st: (Seq<Seq<char>>, Seq<char>), c: char) -> (Seq<Seq<char>>, Seq<char>) {
    if c == '\n' {
        (
            st.0.push(
                if st.1.len() > 0 && st.1.last() == '\r' {
                    st.1.drop_last()
                } else {
                    st.1
                },
            ),
            Seq::empty(),
        )
    } else {
        (st.0, st.1.push(c))
    }
}

/// The state of `str::lines` after reading `s`.
pub open spec fn line_fold(s: Seq<char>) -> (Seq<Seq<char>>, Seq<char>)
    decreases s.len(),
{
    if s.len() == 0 {
        (Seq::empty(), Seq::empty())
    } else {
        line_step(line_fold(s.drop_last()), s.last())
    }
}

/// The lines of `s` as `str::lines` yields them: split at `\n`, a `\r`
/// just before a `\n` dropped, and no empty last line after a final `\n`.
pub open spec fn lines(s: Seq<char>) -> Seq<Seq<char>> {
    let st = line_fold(s);
    if st.1.len() > 0 {
        st.0.push(st.1)
    } else {
        st.0
    }
}

/// `str::lines`.
pub fn split_lines(s: &Vec<char>) -> (r: Vec<Vec<char>>)
    ensures
        views(r@) == lines(s@),
{
    let mut done: Vec<Vec<char>> = Vec::new();
    let mut cur: Vec<char> = Vec::new();
    let mut i: usize = 0;
    assert(s@.take(0) =~= Seq::<char>::empty());
    while i < s.len()
        invariant
            i <= s.len(),
            (views(done@), cur@) == line_fold(s@.take(i as int)),
        decreases s.len() - i,
    {
        let ghost before = (views(done@), cur@);
        assert(s@.take(i + 1).drop_last() =~= s@.take(i as int));
        if s[i] == '\n' {
            let mut line = cur;
            if line.len() > 0 && line[line.len() - 1] == '\r' {
                line.pop();
            }
            done.push(line);
            assert(views(done@) =~= line_step(before, '\n').0);
            cur = Vec::new();
        } else {
            cur.push(s[i]);
        }
        i += 1;
    }
    assert(s@.take(s.len() as int) =~= s@);
    if cur.len() > 0 {
        let ghost before = views(done@);
        done.push(cur);
        assert(views(done@) =~= before.push(cur@));
    }
    done
}

/// One step of `str::split_whitespace`.
pub open spec fn ws_step(st: (Seq<Seq<char>>, Seq<char>), c: char) -> (Seq<Seq<char>>, Seq<char>) {
    if is_ws(c) {
        (if st.1.len() > 0 { st.0.push(st.1) } else { st.0 }, Seq::empty())
    } else {
        (st.0, st.1.push(c))
    }
}

/// The state of `str::split_whitespace` after reading `s`.
pub open spec fn ws_fold(s: Seq<char>) -> (Seq<Seq<char>>, Seq<char>)
    decreases s.len(),
{
    if s.len() == 0 {
        (Seq::empty(), Seq::empty())
    } else {
        ws_step(ws_fold(s.drop_last()), s.last())
    }
}

/// The words of `s`: its maximal runs of non-white-space characters.
pub open spec fn words(s: Seq<char>) -> Seq<Seq<char>> {
    seg_finish(ws_fold(s))
}

/// `str::split_whitespace`.
pub fn split_words(s: &Vec<char>) -> (r: Vec<Vec<char>>)
    ensures
        views(r@) == words(s@),
{
    let mut done: Vec<Vec<char>> = Vec::new();
    let mut cur: Vec<char> = Vec::new();
    let mut i: usize = 0;
    assert(s@.take(0) =~= Seq::<char>::empty());
    while i < s.len()
        invariant
            i <= s.len(),
            (views(done@), cur@) == ws_fold(s@.take(i as int)),
        decreases s.len() - i,
    {
        let ghost before = (views(done@), cur@);
        assert(s@.take(i + 1).drop_last() =~= s@.take(i as int));
        if is_whitespace(s[i]) {
            if cur.len() > 0 {
                let piece = cur;
                done.push(piece);
                assert(views(done@) =~= before.0.push(before.1));
            }
            cur = Vec::new();
        } else {
            cur.push(s[i]);
        }
        i += 1;
    }
    assert(s@.take(s.len() as int) =~= s@);
    if cur.len() > 0 {
        let ghost before = views(done@);
        done.push(cur);
        assert(views(done@) =~= before.push(cur@));
    }
    done
}

/// The index of the first `c` in `s`, if any.
pub open spec fn first_index_of(s: Seq<char>, c: char) -> Option<int> {
    if has_char(s, c) {
        Some(choose|i: int| 0 <= i < s.len() && s[i] == c && forall|j: int| 0 <= j < i ==> s[j] != c)
    } else {
        None
    }
}

/// Finds the first `c` in `s`.
pub fn find_char(s: &Vec<char>, c: char) -> (r: Option<usize>)
    ensures
        match r {
            Some(i) => i < s.len() && s@[i as int] == c && (forall|j: int| 0 <= j < i ==> s@[j] != c),
            None => !has_char(s@, c),
        },
        match r {
            Some(i) => first_index_of(s@, c) == Some(i as int),
            None => first_index_of(s@, c) is None,
        },
{
    let mut i: usize = 0;
    while i < s.len()
        invariant
            i <= s.len(),
            forall|j: int| 0 <= j < i ==> s@[j] != c,
        decreases s.len() - i,
    {
        if s[i] == c {
            proof {
                let k = choose|k: int| 0 <= k < s@.len() && s@[k] == c && forall|j: int| 0 <= j < k ==> s@[j] != c;
                assert(k == i) by {
                    if k < i {
                    } else if k > i {
                        assert(s@[i as int] != c);
                    }
                }
            }
            return Some(i);
        }
        i += 1;
    }
    None
}


/// `char::to_ascii_lowercase`.
pub open spec fn ascii_lower(c: char) -> char {
    if 'A' <= c && c <= 'Z' {
        ((c as int) + 32) as char
    } else {
        c
    }
}

/// `str::to_ascii_lowercase` on characters.
pub open spec fn ascii_lower_seq(s: Seq<char>) -> Seq<char> {
    s.map_values(|c: char| ascii_lower(c))
}

/// `char::to_ascii_lowercase`.
pub fn to_ascii_lower(c: char) -> (r: char)
    ensures
        r == ascii_lower(c),
{
    if 'A' <= c && c <= 'Z' {
        let b: u8 = (c as u32 + 32) as u8;
        let r = b as char;
        assert(r as int == c as int + 32);
        r
    } else {
        c
    }
}

/// `str::to_ascii_lowercase` on characters.
pub fn lower_ascii(s: &Vec<char>) -> (r: Vec<char>)
    ensures
        r@ == ascii_lower_seq(s@),
{
    let mut r: Vec<char> = Vec::new();
    let mut i: usize = 0;
    while i < s.len()
        invariant
            i <= s.len(),
            r@ == ascii_lower_seq(s@).take(i as int),
        decreases s.len() - i,
    {
        r.push(to_ascii_lower(s[i]));
        i += 1;
        assert(r@ =~= ascii_lower_seq(s@).take(i as int));
    }
    assert(ascii_lower_seq(s@).take(s.len() as int) =~= ascii_lower_seq(s@));
    r
}

/// `c` is an ASCII letter or digit (`char::is_ascii_alphanumeric`).
pub open spec fn is_ascii_alnum(c: char) -> bool {
    ('a' <= c && c <= 'z') || ('A' <= c && c <= 'Z') || ('0' <= c && c <= '9')
}

/// `char::is_ascii_alphanumeric`.
pub fn ascii_alnum(c: char) -> (r: bool)
    ensures
        r == is_ascii_alnum(c),
{
    ('a' <= c && c <= 'z') || ('A' <= c && c <= 'Z') || ('0' <= c && c <= '9')
}


proof fn lemma_first_occurrence_exists(s: Seq<char>, c: char)
    requires
        has_char(s, c),
    ensures
        exists|i: int| 0 <= i < s.len() && s[i] == c && forall|j: int| 0 <= j < i ==> s[j] != c,
    decreases s.len(),
{
    let t = s.drop_last();
    if has_char(t, c) {
        lemma_first_occurrence_exists(t, c);
        let i = choose|i: int| 0 <= i < t.len() && t[i] == c && forall|j: int| 0 <= j < i ==> t[j] != c;
        assert(s[i] == c);
        assert forall|j: int| 0 <= j < i implies s[j] != c by {
            assert(s[j] == t[j]);
        }
    } else {
        let k = choose|k: int| 0 <= k < s.len() && s[k] == c;
        if k < s.len() - 1 {
            assert(t[k] == c);
        }
        assert forall|j: int| 0 <= j < s.len() - 1 implies s[j] != c by {
            assert(s[j] == t[j]);
        }
        assert(s[s.len() - 1] == c);
    }
}

/// What [`first_index_of`] gives: the first occurrence of `c`, if any.
pub proof fn lemma_first_index_of(s: Seq<char>, c: char)
    ensures
        match first_index_of(s, c) {
            Some(i) => 0 <= i < s.len() && s[i] == c && (forall|j: int| 0 <= j < i ==> s[j] != c),
            None => !has_char(s, c),
        },
{
    if has_char(s, c) {
        lemma_first_occurrence_exists(s, c);
    }
}

/// `p` occurs in `s` at `i`.
pub open spec fn occurs_at(s: Seq<char>, p: Seq<char>, i: int) -> bool {
    0 <= i && i + p.len() <= s.len() && s.subrange(i, i + p.len()) == p
}

/// `p` occurs in `s`.
pub open spec fn contains_seq(s: Seq<char>, p: Seq<char>) -> bool {
    exists|i: int| #[trigger] occurs_at(s, p, i)
}

/// Whether `p` occurs in `s`.
pub fn contains_seq_exec(s: &Vec<char>, p: &Vec<char>) -> (r: bool)
    ensures
        r == contains_seq(s@, p@),
{
    if p.len() > s.len() {
        return false;
    }
    let mut i: usize = 0;
    let last = s.len() - p.len();
    loop
        invariant_except_break
            last == s.len() - p.len(),
            p.len() <= s.len(),
            i <= last,
            forall|j: int| 0 <= j < i ==> !#[trigger] occurs_at(s@, p@, j),
        ensures
            forall|j: int| 0 <= j <= last ==> !#[trigger] occurs_at(s@, p@, j),
            last == s.len() - p.len(),
        decreases last - i,
    {
        if matches_at(s, i, p) {
            assert(occurs_at(s@, p@, i as int));
            return true;
        }
        if i == last {
            break;
        }
        i += 1;
    }
    false
}

} // verus!
