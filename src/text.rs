use vstd::prelude::*;
use vstd::string::StringSliceAdditionalSpecFns;
use vstd::utf8::{
    char_is_scalar, encode_scalar, encode_utf8, encode_utf8_decode_utf8, encode_utf8_first_scalar,
    encode_utf8_valid_utf8, is_char_boundary, length_of_first_scalar, pop_first_scalar,
};

verus! {

broadcast use vstd::string::group_string_axioms;

/// `p` occurs in `t` starting at position `i`.
pub open spec fn occurs_at(t: Seq<char>, p: Seq<char>, i: int) -> bool {
    0 <= i && i + p.len() <= t.len() && t.subrange(i, i + p.len()) == p
}

/// `p` is a contiguous part of `t`.
pub open spec fn has_substring(t: Seq<char>, p: Seq<char>) -> bool {
    exists|i: int| occurs_at(t, p, i)
}

/// The pieces of `s` between `'\n'` characters, the last piece included even
/// when it is empty.
pub open spec fn split_lf(s: Seq<char>) -> Seq<Seq<char>>
    decreases s.len(),
{
    if s.len() == 0 {
        seq![Seq::empty()]
    } else {
        let prev = split_lf(s.drop_last());
        if s.last() == '\n' {
            prev.push(Seq::empty())
        } else {
            prev.update(prev.len() - 1, prev.last().push(s.last()))
        }
    }
}

/// A line that ended in `"\r\n"` loses its `'\r'`.
pub open spec fn strip_cr(l: Seq<char>) -> Seq<char> {
    if l.len() > 0 && l.last() == '\r' {
        l.drop_last()
    } else {
        l
    }
}

/// The lines of `s`: each line ends at `'\n'`, a `'\r'` just before it is
/// not part of the line, and the last line needs no terminator. Text that
/// ends with a terminator has no empty line after it; empty text has none.
pub open spec fn lines_of(s: Seq<char>) -> Seq<Seq<char>> {
    let p = split_lf(s);
    let ended = p.drop_last().map_values(|l: Seq<char>| strip_cr(l));
    if p.last().len() == 0 {
        ended
    } else {
        ended.push(p.last())
    }
}

/// Empty text has no lines.
pub proof fn lemma_lines_of_empty()
    ensures
        lines_of(Seq::<char>::empty()).len() == 0,
{
    assert(split_lf(Seq::<char>::empty()) == seq![Seq::<char>::empty()]);
}

/// The characters of `s`, in order.
pub fn chars_of(s: &str) -> (r: Vec<char>)
    ensures
        r@ == s@,
{
    let mut r: Vec<char> = Vec::new();
    for c in it: s.chars()
        invariant
            r@ == it.seq().take(it.index() as int),
    {
        r.push(c);
    }
    r
}

/// The encoding of a concatenation is the concatenation of the encodings.
pub proof fn lemma_encode_concat(a: Seq<char>, b: Seq<char>)
    ensures
        encode_utf8(a + b) == encode_utf8(a) + encode_utf8(b),
    decreases a.len(),
{
    if a.len() == 0 {
        assert(a + b =~= b);
        assert(encode_utf8(a) + encode_utf8(b) =~= encode_utf8(b));
    } else {
        assert((a + b).drop_first() =~= a.drop_first() + b);
        assert((a + b)[0] == a[0]);
        lemma_encode_concat(a.drop_first(), b);
        assert(encode_utf8(a + b) =~= encode_utf8(a) + encode_utf8(b));
    }
}

/// One character encodes as its scalar's bytes.
pub proof fn lemma_encode_single(c: char)
    ensures
        encode_utf8(seq![c]) == encode_scalar(c as u32),
{
    assert(seq![c].drop_first() =~= Seq::<char>::empty());
    assert(encode_utf8(Seq::<char>::empty()) =~= Seq::<u8>::empty());
    assert(seq![c][0] == c);
    assert(encode_utf8(seq![c]) =~= encode_scalar(c as u32));
}

/// The encoding of the first `i` characters ends on a character boundary.
pub proof fn lemma_prefix_is_boundary(s: Seq<char>, i: int)
    requires
        0 <= i <= s.len(),
    ensures
        is_char_boundary(encode_utf8(s), encode_utf8(s.take(i)).len() as int),
    decreases s.len(),
{
    broadcast use encode_utf8_valid_utf8;

    if i > 0 {
        let bytes = encode_utf8(s);
        encode_utf8_first_scalar(s);
        assert(pop_first_scalar(bytes) =~= encode_utf8(s.drop_first()));
        assert(s.take(i) =~= seq![s[0]] + s.drop_first().take(i - 1));
        lemma_encode_concat(seq![s[0]], s.drop_first().take(i - 1));
        lemma_encode_single(s[0]);
        lemma_encode_concat(s.take(i), s.skip(i));
        assert(s.take(i) + s.skip(i) =~= s);
        assert(length_of_first_scalar(bytes) == encode_scalar(s[0] as u32).len());
        lemma_prefix_is_boundary(s.drop_first(), i - 1);
    }
}

/// How many bytes UTF-8 takes for `c`.
fn utf8_width(c: char) -> (w: usize)
    ensures
        w == encode_scalar(c as u32).len(),
{
    proof {
        char_is_scalar(c);
    }
    let u = c as u32;
    if u <= 0x7F {
        1
    } else if u <= 0x7FF {
        2
    } else if u <= 0xFFFF {
        3
    } else {
        4
    }
}

/// For each `i` from 0 to the length of `cs`, where the first `i`
/// characters end in the UTF-8 bytes of `s`.
pub fn byte_offsets(s: &str, cs: &Vec<char>) -> (r: Vec<usize>)
    requires
        cs@ == s@,
    ensures
        r.len() == cs.len() + 1,
        forall|i: int| 0 <= i <= cs.len() ==> #[trigger] r[i] == encode_utf8(s@.take(i)).len(),
{
    let ghost total = encode_utf8(s@);
    let n = s.as_bytes().len();
    assert(n == total.len());
    let mut r: Vec<usize> = Vec::new();
    r.push(0);
    assert(s@.take(0) =~= Seq::<char>::empty());
    let mut i: usize = 0;
    while i < cs.len()
        invariant
            i <= cs.len(),
            cs@ == s@,
            total == encode_utf8(s@),
            total.len() <= usize::MAX,
            r.len() == i + 1,
            forall|j: int| 0 <= j <= i ==> #[trigger] r[j] == encode_utf8(s@.take(j)).len(),
        decreases cs.len() - i,
    {
        let w = utf8_width(cs[i]);
        proof {
            let c = cs@[i as int];
            assert(s@.take(i + 1) =~= s@.take(i as int) + seq![c]);
            lemma_encode_concat(s@.take(i as int), seq![c]);
            lemma_encode_single(c);
            lemma_encode_concat(s@.take(i + 1), s@.skip(i + 1));
            assert(s@.take(i + 1) + s@.skip(i + 1) =~= s@);
        }
        let next = r[i] + w;
        r.push(next);
        i = i + 1;
    }
    r
}

/// The characters `a..b` of `s`, as a slice of `s`, given the byte offsets
/// of its characters.
pub fn slice_chars<'a>(s: &'a str, offs: &Vec<usize>, a: usize, b: usize) -> (r: &'a str)
    requires
        a <= b <= s@.len(),
        offs.len() == s@.len() + 1,
        forall|i: int| 0 <= i <= s@.len() ==> #[trigger] offs[i] == encode_utf8(s@.take(i)).len(),
    ensures
        r@ == s@.subrange(a as int, b as int),
{
    let ghost t = s@.skip(a as int);
    let ghost line = s@.subrange(a as int, b as int);
    let ba = offs[a];
    let bb = offs[b];
    proof {
        assert(offs[a as int] == encode_utf8(s@.take(a as int)).len());
        assert(offs[b as int] == encode_utf8(s@.take(b as int)).len());
        lemma_prefix_is_boundary(s@, a as int);
        assert(s@.take(a as int) + t =~= s@);
        lemma_encode_concat(s@.take(a as int), t);
        assert(s@.take(b as int) =~= s@.take(a as int) + line);
        lemma_encode_concat(s@.take(a as int), line);
        assert(t.take(b - a) =~= line);
        lemma_prefix_is_boundary(t, b - a);
        assert(line + t.skip(b - a) =~= t);
        lemma_encode_concat(line, t.skip(b - a));
    }
    let (_, tail) = s.split_at(ba);
    proof {
        assert(tail.spec_bytes() =~= encode_utf8(t));
    }
    let (r, _) = tail.split_at(bb - ba);
    proof {
        assert(r.spec_bytes() =~= encode_utf8(line));
        encode_utf8_decode_utf8(r@);
        encode_utf8_decode_utf8(line);
    }
    r
}

/// Whether `p` occurs in `t` at position `i`.
fn occurs_at_exec(t: &Vec<char>, lo: usize, hi: usize, p: &Vec<char>, i: usize) -> (r: bool)
    requires
        lo <= i,
        i + p.len() <= hi <= t.len(),
    ensures
        r == occurs_at(t@.subrange(lo as int, hi as int), p@, i - lo),
{
    let ghost w = t@.subrange(lo as int, hi as int);
    let mut j: usize = 0;
    while j < p.len()
        invariant
            j <= p.len(),
            i + p.len() <= hi <= t.len(),
            lo <= i,
            w == t@.subrange(lo as int, hi as int),
            forall|k: int| 0 <= k < j ==> t@[i + k] == p@[k],
        decreases p.len() - j,
    {
        if t[i + j] != p[j] {
            assert(w.subrange(i - lo, i - lo + p.len())[j as int] != p@[j as int]);
            return false;
        }
        j = j + 1;
    }
    assert(w.subrange(i - lo, i - lo + p.len()) =~= p@);
    true
}

/// Whether `p` occurs in the part `lo..hi` of `t`.
pub fn window_has_substring(t: &Vec<char>, lo: usize, hi: usize, p: &Vec<char>) -> (r: bool)
    requires
        lo <= hi <= t.len(),
    ensures
        r == has_substring(t@.subrange(lo as int, hi as int), p@),
{
    let ghost w = t@.subrange(lo as int, hi as int);
    if p.len() > hi - lo {
        assert(forall|k: int| !occurs_at(w, p@, k));
        return false;
    }
    if p.len() == 0 {
        assert(w.subrange(0, 0) =~= p@);
        assert(occurs_at(w, p@, 0));
        return true;
    }
    let last: usize = hi - p.len();
    let mut i: usize = lo;
    while i <= last
        invariant
            lo <= i <= last + 1,
            last + p.len() == hi,
            p.len() > 0,
            hi <= t.len(),
            w == t@.subrange(lo as int, hi as int),
            forall|k: int| 0 <= k < i - lo ==> !#[trigger] occurs_at(w, p@, k),
        decreases last + 1 - i,
    {
        if occurs_at_exec(t, lo, hi, p, i) {
            assert(occurs_at(w, p@, i - lo));
            return true;
        }
        i = i + 1;
    }
    assert forall|k: int| !#[trigger] occurs_at(w, p@, k) by {
        if 0 <= k < i - lo {
        }
    }
    false
}

/// Where each line of `cs` starts and ends, as positions in `cs`.
pub fn line_spans(cs: &Vec<char>) -> (r: Vec<(usize, usize)>)
    ensures
        r.len() == lines_of(cs@).len(),
        forall|k: int| 0 <= k < r.len() ==> #[trigger] r[k].0 <= r[k].1 <= cs.len(),
        forall|k: int|
            0 <= k < r.len() ==> cs@.subrange(r[k].0 as int, r[k].1 as int) == #[trigger] lines_of(
                cs@,
            )[k],
{
    let mut r: Vec<(usize, usize)> = Vec::new();
    let mut start: usize = 0;
    let mut i: usize = 0;
    while i < cs.len()
        invariant
            start <= i <= cs.len(),
            split_lf(cs@.take(i as int)).len() == r.len() + 1,
            split_lf(cs@.take(i as int)).last() == cs@.subrange(start as int, i as int),
            forall|k: int| 0 <= k < r.len() ==> #[trigger] r[k].0 <= r[k].1 <= cs.len(),
            forall|k: int|
                0 <= k < r.len() ==> cs@.subrange(r[k].0 as int, r[k].1 as int) == strip_cr(
                    #[trigger] split_lf(cs@.take(i as int))[k],
                ),
        decreases cs.len() - i,
    {
        let ghost prev = split_lf(cs@.take(i as int));
        let ghost old_r = r@;
        assert(cs@.take(i + 1).drop_last() =~= cs@.take(i as int));
        assert(cs@.take(i + 1).last() == cs@[i as int]);
        if cs[i] == '\n' {
            let end: usize = if i > start && cs[i - 1] == '\r' {
                i - 1
            } else {
                i
            };
            proof {
                let l = cs@.subrange(start as int, i as int);
                if i > start && cs@[i - 1] == '\r' {
                    assert(l.drop_last() =~= cs@.subrange(start as int, end as int));
                } else {
                    assert(l =~= cs@.subrange(start as int, end as int));
                }
                assert(strip_cr(l) == cs@.subrange(start as int, end as int));
            }
            let ghost old_start = start;
            r.push((start, end));
            start = i + 1;
            proof {
                let next = split_lf(cs@.take(i + 1));
                assert(next == prev.push(Seq::empty()));
                assert(r[old_r.len() as int] == (old_start, end));
                assert(next[old_r.len() as int] == cs@.subrange(old_start as int, i as int));
                assert(cs@.subrange(start as int, i + 1) =~= Seq::<char>::empty());
                assert forall|k: int| 0 <= k < r.len() implies cs@.subrange(
                    r[k].0 as int,
                    r[k].1 as int,
                ) == strip_cr(#[trigger] next[k]) by {
                    if k < old_r.len() {
                        assert(r[k] == old_r[k]);
                        assert(next[k] == prev[k]);
                    }
                }
            }
        } else {
            proof {
                let next = split_lf(cs@.take(i + 1));
                assert(next == prev.update(prev.len() - 1, prev.last().push(cs@[i as int])));
                assert(cs@.subrange(start as int, i + 1) =~= cs@.subrange(
                    start as int,
                    i as int,
                ).push(cs@[i as int]));
                assert forall|k: int| 0 <= k < r.len() implies cs@.subrange(
                    r[k].0 as int,
                    r[k].1 as int,
                ) == strip_cr(#[trigger] next[k]) by {
                    assert(next[k] == prev[k]);
                }
            }
        }
        i = i + 1;
    }
    assert(cs@.take(cs.len() as int) =~= cs@);
    let ghost p = split_lf(cs@);
    let ghost ended = p.drop_last().map_values(|l: Seq<char>| strip_cr(l));
    let ghost done = r@;
    assert forall|k: int| 0 <= k < done.len() implies #[trigger] ended[k] == strip_cr(p[k]) by {
    }
    if start < cs.len() {
        r.push((start, cs.len()));
        assert(lines_of(cs@) == ended.push(p.last()));
        assert forall|k: int| 0 <= k < r.len() implies cs@.subrange(
            r[k].0 as int,
            r[k].1 as int,
        ) == #[trigger] lines_of(cs@)[k] by {
            if k < done.len() {
                assert(r[k] == done[k]);
                assert(lines_of(cs@)[k] == ended[k]);
            }
        }
    } else {
        assert(lines_of(cs@) == ended);
        assert forall|k: int| 0 <= k < r.len() implies cs@.subrange(
            r[k].0 as int,
            r[k].1 as int,
        ) == #[trigger] lines_of(cs@)[k] by {
            assert(lines_of(cs@)[k] == ended[k]);
        }
    }
    r
}

/// Whether `needle` occurs in `haystack`.
pub fn contains(haystack: &str, needle: &str) -> (r: bool)
    ensures
        r == has_substring(haystack@, needle@),
{
    let t = chars_of(haystack);
    let p = chars_of(needle);
    assert(t@.subrange(0, t@.len() as int) =~= t@);
    window_has_substring(&t, 0, t.len(), &p)
}

} // verus!
