//! Rules on path segments and on slash-separated repository names.
use vstd::prelude::*;

verus! {

/// The characters a segment may hold: ASCII letters and digits, `_`, `-`, `.`.
pub open spec fn is_stem_char(c: char) -> bool {
    ('a' <= c && c <= 'z') || ('A' <= c && c <= 'Z') || ('0' <= c && c <= '9') || c == '_'
        || c == '-' || c == '.'
}

/// A segment is valid when it is non-empty, is neither `.` nor `..`, and holds
/// only permitted characters.
pub open spec fn valid_stem(s: Seq<char>) -> bool {
    &&& s.len() > 0
    &&& s != seq!['.']
    &&& s != seq!['.', '.']
    &&& forall|i: int| 0 <= i < s.len() ==> #[trigger] is_stem_char(s[i])
}

/// The marker appended to the last segment of a repository's directory.
pub open spec fn storage_suffix() -> Seq<char> {
    seq!['.', 'g', 'i', 't']
}

/// Whether `s` ends in the storage suffix.
pub open spec fn ends_with_suffix(s: Seq<char>) -> bool {
    s.len() >= 4 && s.subrange(s.len() - 4, s.len() as int) == storage_suffix()
}

/// A segment of a requested name: a valid stem that does not end in the suffix.
pub open spec fn segment_ok(s: Seq<char>) -> bool {
    valid_stem(s) && !ends_with_suffix(s)
}

/// The pieces of `s` between slashes, in order; `s` without a slash is one piece.
pub open spec fn segments(s: Seq<char>) -> Seq<Seq<char>>
    decreases s.len(),
{
    if s.len() == 0 {
        seq![Seq::empty()]
    } else {
        let p = segments(s.drop_last());
        if s.last() == '/' {
            p.push(Seq::empty())
        } else {
            p.update(p.len() - 1, p.last().push(s.last()))
        }
    }
}

/// Segments put back together with a slash between neighbours.
pub open spec fn join_segments(segs: Seq<Seq<char>>) -> Seq<char>
    decreases segs.len(),
{
    if segs.len() == 0 {
        Seq::empty()
    } else if segs.len() == 1 {
        segs[0]
    } else {
        join_segments(segs.drop_last()) + seq!['/'] + segs.last()
    }
}

/// A name is acceptable when every one of its segments is.
pub open spec fn name_ok(name: Seq<char>) -> bool {
    forall|k: int| 0 <= k < segments(name).len() ==> #[trigger] segment_ok(segments(name)[k])
}

/// The error of a requested name that breaks the naming rules.
#[derive(Clone, Copy, Debug, PartialEq, Eq, Structural)]
pub struct InvalidName;

pub proof fn lemma_segments_nonempty(s: Seq<char>)
    ensures
        segments(s).len() >= 1,
    decreases s.len(),
{
    if s.len() > 0 {
        lemma_segments_nonempty(s.drop_last());
    }
}

/// Extending a string keeps every segment of it that a slash already closed.
pub proof fn lemma_segments_prefix(s: Seq<char>, j: int)
    requires
        0 <= j <= s.len(),
    ensures
        segments(s.subrange(0, j)).len() <= segments(s).len(),
        forall|k: int|
            0 <= k < segments(s.subrange(0, j)).len() - 1 ==> segments(s)[k] == #[trigger] segments(
                s.subrange(0, j),
            )[k],
    decreases s.len(),
{
    if j == s.len() {
        assert(s.subrange(0, j) =~= s);
    } else {
        let t = s.drop_last();
        assert(s.subrange(0, j) =~= t.subrange(0, j));
        lemma_segments_prefix(t, j);
        lemma_segments_nonempty(t);
    }
}

/// Appending text without a slash only lengthens the last segment.
pub proof fn lemma_segments_append_plain(s: Seq<char>, t: Seq<char>)
    requires
        forall|i: int| 0 <= i < t.len() ==> t[i] != '/',
    ensures
        segments(s + t).len() == segments(s).len(),
        segments(s + t) == segments(s).update(
            segments(s).len() - 1,
            segments(s).last() + t,
        ),
    decreases t.len(),
{
    lemma_segments_nonempty(s);
    let p = segments(s);
    if t.len() == 0 {
        assert(s + t =~= s);
        assert(p.update(p.len() - 1, p.last() + t) =~= p);
    } else {
        let t0 = t.drop_last();
        assert((s + t).drop_last() =~= s + t0);
        assert((s + t).last() == t.last());
        lemma_segments_append_plain(s, t0);
        assert((p.last() + t0).push(t.last()) =~= p.last() + t);
        assert(segments(s + t) =~= p.update(p.len() - 1, p.last() + t));
    }
}

/// A string without a slash is its own single segment.
pub proof fn lemma_segments_plain(t: Seq<char>)
    requires
        forall|i: int| 0 <= i < t.len() ==> t[i] != '/',
    ensures
        segments(t) == seq![t],
{
    let e = Seq::<char>::empty();
    assert(e + t =~= t);
    lemma_segments_append_plain(e, t);
    assert(segments(e) == seq![e]);
    assert(seq![e].update(0, e + t) =~= seq![t]);
}

/// A slash closes the last segment and opens an empty one.
pub proof fn lemma_segments_slash(s: Seq<char>)
    ensures
        segments(s + seq!['/']) == segments(s).push(Seq::empty()),
{
    assert((s + seq!['/']).drop_last() =~= s);
}

/// Joining the segments of a string with slashes gives the string back.
pub proof fn lemma_join_segments(s: Seq<char>)
    ensures
        join_segments(segments(s)) == s,
    decreases s.len(),
{
    if s.len() > 0 {
        let s0 = s.drop_last();
        lemma_join_segments(s0);
        lemma_segments_nonempty(s0);
        let p = segments(s0);
        if s.last() == '/' {
            assert(p.push(Seq::empty()).drop_last() =~= p);
            assert(s0 + seq!['/'] + Seq::<char>::empty() =~= s);
        } else {
            let q = p.update(p.len() - 1, p.last().push(s.last()));
            if p.len() == 1 {
                assert(p =~= seq![s0]);
                assert(s0.push(s.last()) =~= s);
            } else {
                assert(q.drop_last() =~= p.drop_last());
                assert(join_segments(p.drop_last()) + seq!['/'] + p.last().push(s.last())
                    =~= (join_segments(p.drop_last()) + seq!['/'] + p.last()).push(s.last()));
                assert(s0.push(s.last()) =~= s);
            }
        }
    }
}

/// For a string of permitted characters alone, being a valid stem comes down to
/// being non-empty and neither `.` nor `..`.
pub proof fn lemma_stem_of_permitted_chars(s: Seq<char>)
    requires
        forall|i: int| 0 <= i < s.len() ==> #[trigger] is_stem_char(s[i]),
    ensures
        valid_stem(s) <==> (s.len() > 0 && s != seq!['.'] && s != seq!['.', '.']),
{
}

/// A name of three slash-free parts `a/b/c` is accepted exactly when each part
/// is a valid stem that does not end in the storage suffix.
pub proof fn lemma_three_part_name(a: Seq<char>, b: Seq<char>, c: Seq<char>)
    requires
        forall|i: int| 0 <= i < a.len() ==> a[i] != '/',
        forall|i: int| 0 <= i < b.len() ==> b[i] != '/',
        forall|i: int| 0 <= i < c.len() ==> c[i] != '/',
    ensures
        name_ok(a + seq!['/'] + b + seq!['/'] + c) <==> (segment_ok(a) && segment_ok(b)
            && segment_ok(c)),
{
    let e = Seq::<char>::empty();
    lemma_segments_plain(a);
    lemma_segments_slash(a);
    let ab = a + seq!['/'] + b;
    lemma_segments_append_plain(a + seq!['/'], b);
    assert(seq![a].push(e).update(1, e + b) =~= seq![a, b]);
    lemma_segments_slash(ab);
    lemma_segments_append_plain(ab + seq!['/'], c);
    assert(seq![a, b].push(e).update(2, e + c) =~= seq![a, b, c]);
    let segs = segments(a + seq!['/'] + b + seq!['/'] + c);
    assert(segs == seq![a, b, c]);
    if segment_ok(a) && segment_ok(b) && segment_ok(c) {
        assert forall|k: int| 0 <= k < segs.len() implies #[trigger] segment_ok(segs[k]) by {
            if k == 0 {
            } else if k == 1 {
            } else {
            }
        }
    } else {
        if !segment_ok(a) {
            assert(!segment_ok(segs[0]));
        } else if !segment_ok(b) {
            assert(!segment_ok(segs[1]));
        } else {
            assert(!segment_ok(segs[2]));
        }
    }
}

fn is_stem_char_exec(c: char) -> (r: bool)
    ensures
        r == is_stem_char(c),
{
    ('a' <= c && c <= 'z') || ('A' <= c && c <= 'Z') || ('0' <= c && c <= '9') || c == '_'
        || c == '-' || c == '.'
}

/// Whether `s` may stand as one segment of a repository's path.
pub fn is_valid_repo_stem(s: &str) -> (r: bool)
    ensures
        r == valid_stem(s@),
{
    let n = s.unicode_len();
    if n == 0 {
        return false;
    }
    if n == 1 && s.get_char(0) == '.' {
        assert(s@ =~= seq!['.']);
        return false;
    }
    if n == 2 && s.get_char(0) == '.' && s.get_char(1) == '.' {
        assert(s@ =~= seq!['.', '.']);
        return false;
    }
    assert(s@ != seq!['.']) by {
        if n == 1 {
            assert(s@[0] != seq!['.'][0]);
        }
    }
    assert(s@ != seq!['.', '.']) by {
        if n == 2 {
            assert(s@[0] != seq!['.', '.'][0] || s@[1] != seq!['.', '.'][1]);
        }
    }
    let mut i: usize = 0;
    while i < n
        invariant
            n == s@.len(),
            i <= n,
            forall|k: int| 0 <= k < i ==> #[trigger] is_stem_char(s@[k]),
        decreases n - i,
    {
        if !is_stem_char_exec(s.get_char(i)) {
            return false;
        }
        i = i + 1;
    }
    true
}

/// Whether `s` ends in the storage suffix.
pub fn ends_with_storage_suffix(s: &str) -> (r: bool)
    ensures
        r == ends_with_suffix(s@),
{
    let n = s.unicode_len();
    if n < 4 {
        return false;
    }
    let tail = s.substring_char(n - 4, n);
    let r = tail.get_char(0) == '.' && tail.get_char(1) == 'g' && tail.get_char(2) == 'i'
        && tail.get_char(3) == 't';
    if r {
        assert(tail@ =~= storage_suffix());
    } else {
        assert(tail@ != storage_suffix()) by {
            let sfx = storage_suffix();
            assert(tail@[0] != sfx[0] || tail@[1] != sfx[1] || tail@[2] != sfx[2] || tail@[3]
                != sfx[3]);
        }
    }
    r
}

/// Whether `s` may stand as one segment of a requested name.
pub fn is_allowed_segment(s: &str) -> (r: bool)
    ensures
        r == segment_ok(s@),
{
    is_valid_repo_stem(s) && !ends_with_storage_suffix(s)
}

/// Accepts `name` exactly when each of its slash-separated segments is a valid
/// stem that does not end in the storage suffix.
pub fn validate_name(name: &str) -> (r: Result<(), InvalidName>)
    ensures
        r is Ok <==> name_ok(name@),
{
    let n = name.unicode_len();
    let mut start: usize = 0;
    let mut i: usize = 0;
    while i < n
        invariant
            n == name@.len(),
            start <= i <= n,
            segments(name@.subrange(0, i as int)).last() == name@.subrange(
                start as int,
                i as int,
            ),
            forall|k: int|
                0 <= k < segments(name@.subrange(0, i as int)).len() - 1 ==> #[trigger] segment_ok(
                    segments(name@.subrange(0, i as int))[k],
                ),
        decreases n - i,
    {
        proof {
            lemma_segments_nonempty(name@.subrange(0, i as int));
        }
        let c = name.get_char(i);
        let ghost prev = name@.subrange(0, i as int);
        let ghost next = name@.subrange(0, i + 1);
        assert(next.drop_last() =~= prev);
        if c == '/' {
            let seg = name.substring_char(start, i);
            if !is_allowed_segment(seg) {
                proof {
                    lemma_segments_prefix(name@, i + 1);
                    assert(segments(name@)[segments(prev).len() - 1] == segments(next)[segments(
                        prev,
                    ).len() - 1]);
                }
                return Err(InvalidName);
            }
            start = i + 1;
            assert(segments(next).last() =~= name@.subrange(start as int, i + 1));
            assert forall|k: int| 0 <= k < segments(next).len() - 1 implies #[trigger] segment_ok(
                segments(next)[k],
            ) by {
                if k < segments(prev).len() - 1 {
                    assert(segments(next)[k] == segments(prev)[k]);
                }
            }
        } else {
            assert(segments(next).last() =~= name@.subrange(start as int, i + 1));
            assert forall|k: int| 0 <= k < segments(next).len() - 1 implies #[trigger] segment_ok(
                segments(next)[k],
            ) by {
                assert(segments(next)[k] == segments(prev)[k]);
            }
        }
        i = i + 1;
    }
    assert(name@.subrange(0, n as int) =~= name@);
    proof {
        lemma_segments_nonempty(name@);
    }
    let last = name.substring_char(start, n);
    if !is_allowed_segment(last) {
        assert(!segment_ok(segments(name@)[segments(name@).len() - 1]));
        return Err(InvalidName);
    }
    assert forall|k: int| 0 <= k < segments(name@).len() implies #[trigger] segment_ok(
        segments(name@)[k],
    ) by {
        if k < segments(name@).len() - 1 {
        }
    }
    Ok(())
}

} // verus!
