use vstd::prelude::*;

verus! {

/// Splits a character sequence on '.', exactly like `str::split('.')`:
/// the result always holds at least one segment, and empty segments are kept.
pub open spec fn split_dot(s: Seq<char>) -> Seq<Seq<char>>
    decreases s.len(),
{
    if s.len() == 0 {
        seq![Seq::<char>::empty()]
    } else {
        let prev = split_dot(s.drop_last());
        if s.last() == '.' {
            prev.push(Seq::<char>::empty())
        } else {
            prev.update(prev.len() - 1, prev.last().push(s.last()))
        }
    }
}

/// Joins segments with '.' between them.
pub open spec fn join_dot(segs: Seq<Seq<char>>) -> Seq<char>
    decreases segs.len(),
{
    if segs.len() == 0 {
        Seq::<char>::empty()
    } else if segs.len() == 1 {
        segs[0]
    } else {
        join_dot(segs.drop_last()) + seq!['.'] + segs.last()
    }
}

/// The views of a sequence of strings.
pub open spec fn strings_view(v: Seq<String>) -> Seq<Seq<char>> {
    v.map_values(|s: String| s@)
}

/// The first `max_segment_count + 1` segments of a dotted path, joined again.
pub open spec fn truncated_path(path: Seq<char>, max_segment_count: int) -> Seq<char> {
    let segs = split_dot(path);
    if max_segment_count + 1 < segs.len() {
        join_dot(segs.take(max_segment_count + 1))
    } else {
        join_dot(segs)
    }
}

/// `lhs.rhs`, or just `rhs` when `lhs` is empty.
pub open spec fn joined_field_path(lhs: Seq<char>, rhs: Seq<char>) -> Seq<char> {
    if lhs.len() == 0 {
        rhs
    } else {
        lhs + seq!['.'] + rhs
    }
}

pub proof fn lemma_split_dot_nonempty(s: Seq<char>)
    ensures
        split_dot(s).len() >= 1,
    decreases s.len(),
{
    if s.len() > 0 {
        lemma_split_dot_nonempty(s.drop_last());
    }
}

proof fn lemma_join_dot_push(segs: Seq<Seq<char>>, e: Seq<char>)
    requires
        segs.len() >= 1,
    ensures
        join_dot(segs.push(e)) == join_dot(segs) + seq!['.'] + e,
{
    assert(segs.push(e).drop_last() =~= segs);
}

proof fn lemma_join_dot_extend_last(segs: Seq<Seq<char>>, c: char)
    requires
        segs.len() >= 1,
    ensures
        join_dot(segs.update(segs.len() - 1, segs.last().push(c))) == join_dot(segs).push(c),
{
    let u = segs.update(segs.len() - 1, segs.last().push(c));
    if segs.len() == 1 {
    } else {
        assert(u.drop_last() =~= segs.drop_last());
        assert(join_dot(u) == join_dot(segs.drop_last()) + seq!['.'] + segs.last().push(c));
        assert(join_dot(segs.drop_last()) + seq!['.'] + segs.last().push(c) =~= (join_dot(
            segs.drop_last(),
        ) + seq!['.'] + segs.last()).push(c));
    }
}

/// Splitting a path on '.' and joining the segments again gives back the path.
pub proof fn lemma_join_split(s: Seq<char>)
    ensures
        join_dot(split_dot(s)) == s,
    decreases s.len(),
{
    if s.len() == 0 {
    } else {
        let prev = split_dot(s.drop_last());
        lemma_join_split(s.drop_last());
        lemma_split_dot_nonempty(s.drop_last());
        if s.last() == '.' {
            lemma_join_dot_push(prev, Seq::<char>::empty());
            assert(s.drop_last() + seq!['.'] + Seq::<char>::empty() =~= s);
        } else {
            lemma_join_dot_extend_last(prev, s.last());
            assert(s.drop_last().push(s.last()) =~= s);
        }
    }
}

proof fn lemma_join_prefix_shorter(segs: Seq<Seq<char>>, k: int)
    requires
        1 <= k < segs.len(),
    ensures
        join_dot(segs.take(k)).len() < join_dot(segs).len(),
    decreases segs.len(),
{
    let p = segs.drop_last();
    assert(join_dot(segs) == join_dot(p) + seq!['.'] + segs.last());
    if k == segs.len() - 1 {
        assert(segs.take(k) =~= p);
    } else {
        lemma_join_prefix_shorter(p, k);
        assert(p.take(k) =~= segs.take(k));
    }
}

/// A path cut to fewer segments than it has is shorter than the path.
pub proof fn lemma_truncated_shorter(path: Seq<char>, m: int)
    requires
        0 <= m,
        m + 1 < split_dot(path).len(),
    ensures
        truncated_path(path, m).len() < path.len(),
{
    lemma_join_split(path);
    lemma_join_prefix_shorter(split_dot(path), m + 1);
}

/// Appends one character to a string (std's `String::push`).
#[verifier::external_body]
fn push_char(s: &mut String, c: char)
    ensures
        final(s)@ == old(s)@.push(c),
{
    s.push(c)
}

/// Appends one character to a string.
pub fn push_char_pub(s: &mut String, c: char)
    ensures
        final(s)@ == old(s)@.push(c),
{
    push_char(s, c)
}

/// Copies a string slice into a new string.
pub fn to_owned_string(s: &str) -> (r: String)
    ensures
        r@ == s@,
{
    s.to_owned()
}

/// Concatenates the characters of `b` onto `a`.
pub fn append_str(a: &mut String, b: &str)
    ensures
        final(a)@ == old(a)@ + b@,
{
    let n = b.unicode_len();
    let ghost a0 = a@;
    let mut i: usize = 0;
    while i < n
        invariant
            n == b@.len(),
            i <= n,
            a@ == a0 + b@.take(i as int),
        decreases n - i,
    {
        let c = b.get_char(i);
        push_char(a, c);
        assert(b@.take(i as int).push(c) =~= b@.take(i + 1));
        i = i + 1;
    }
    assert(b@.take(n as int) =~= b@);
}

/// Splits a dotted property path into its segments (like `str::split('.')`).
pub fn split_path(path: &str) -> (r: Vec<String>)
    ensures
        strings_view(r@) == split_dot(path@),
{
    let n = path.unicode_len();
    let mut out: Vec<String> = Vec::new();
    let mut cur = String::new();
    let mut i: usize = 0;
    while i < n
        invariant
            n == path@.len(),
            i <= n,
            strings_view(out@).push(cur@) == split_dot(path@.take(i as int)),
        decreases n - i,
    {
        let c = path.get_char(i);
        let ghost prev = split_dot(path@.take(i as int));
        proof {
            lemma_split_dot_nonempty(path@.take(i as int));
            assert(path@.take(i + 1).drop_last() =~= path@.take(i as int));
            assert(path@.take(i + 1).last() == c);
        }
        if c == '.' {
            let done = cur;
            out.push(done);
            cur = String::new();
            assert(strings_view(out@).push(cur@) =~= prev.push(Seq::<char>::empty()));
        } else {
            let ghost old_out = out@;
            push_char(&mut cur, c);
            assert(strings_view(out@).push(cur@) =~= prev.update(
                prev.len() - 1,
                prev.last().push(c),
            ));
        }
        i = i + 1;
    }
    assert(path@.take(n as int) =~= path@);
    out.push(cur);
    assert(strings_view(out@) =~= split_dot(path@));
    out
}

/// Joins segments with '.' between them.
pub fn join_segments(segs: &Vec<String>, count: usize) -> (r: String)
    requires
        count <= segs@.len(),
    ensures
        r@ == join_dot(strings_view(segs@).take(count as int)),
{
    let mut out = String::new();
    let mut i: usize = 0;
    while i < count
        invariant
            count <= segs@.len(),
            i <= count,
            out@ == join_dot(strings_view(segs@).take(i as int)),
        decreases count - i,
    {
        let ghost sv = strings_view(segs@);
        assert(sv.take(i + 1).drop_last() =~= sv.take(i as int));
        if i == 0 {
            append_str(&mut out, segs[i].as_str());
            assert(sv.take(1)[0] == sv[0]);
        } else {
            append_str(&mut out, ".");
            proof {
                reveal_strlit(".");
            }
            append_str(&mut out, segs[i].as_str());
            assert(out@ =~= join_dot(sv.take(i as int)) + seq!['.'] + sv[i as int]);
        }
        i = i + 1;
    }
    out
}

/// Keeps only the first `max_segment_count + 1` segments of a dotted path.
pub fn truncate_property_path(path: &str, max_segment_count: usize) -> (r: String)
    ensures
        r@ == truncated_path(path@, max_segment_count as int),
{
    let segs = split_path(path);
    proof {
        lemma_split_dot_nonempty(path@);
    }
    if max_segment_count < segs.len() - 1 {
        join_segments(&segs, max_segment_count + 1)
    } else {
        let n = segs.len();
        assert(strings_view(segs@).take(n as int) =~= strings_view(segs@));
        join_segments(&segs, n)
    }
}

/// Joins a parent path and a non-empty field name with '.'.
pub fn join_field_path(lhs: &str, rhs: &str) -> (r: String)
    requires
        rhs@.len() != 0,
    ensures
        r@ == joined_field_path(lhs@, rhs@),
{
    if lhs.is_empty() {
        to_owned_string(rhs)
    } else {
        let mut out = to_owned_string(lhs);
        append_str(&mut out, ".");
        proof {
            reveal_strlit(".");
        }
        append_str(&mut out, rhs);
        out
    }
}

} // verus!

verus! {

/// Character-wise equality of two string slices.
pub fn str_eq(a: &str, b: &str) -> (r: bool)
    ensures
        r == (a@ == b@),
{
    let n = a.unicode_len();
    let m = b.unicode_len();
    if n != m {
        return false;
    }
    let mut i: usize = 0;
    while i < n
        invariant
            n == a@.len(),
            m == b@.len(),
            n == m,
            i <= n,
            forall|j: int| 0 <= j < i ==> a@[j] == b@[j],
        decreases n - i,
    {
        if a.get_char(i) != b.get_char(i) {
            return false;
        }
        i = i + 1;
    }
    assert(a@ =~= b@);
    true
}

} // verus!
