use vstd::prelude::*;

verus! {

broadcast use vstd::string::group_string_axioms;

/// The characters of `s`, in order.
pub fn chars_of(s: &str) -> (v: Vec<char>)
    ensures
        v@ == s@,
{
    let mut v: Vec<char> = Vec::new();
    for c in it: s.chars()
        invariant
            it.seq() == s@,
            v@ == s@.take(it.index()),
    {
        v.push(c);
        assert(v@ == s@.take(it.index() + 1));
    }
    assert(v@ == s@.take(s@.len() as int));
    v
}


/// The Unicode `White_Space` property, which is exactly what
/// `char::is_whitespace` tests.
pub open spec fn is_space(c: char) -> bool {
    let u = c as u32;
    ||| 0x09 <= u <= 0x0d
    ||| u == 0x20
    ||| u == 0x85
    ||| u == 0xa0
    ||| u == 0x1680
    ||| 0x2000 <= u <= 0x200a
    ||| u == 0x2028
    ||| u == 0x2029
    ||| u == 0x202f
    ||| u == 0x205f
    ||| u == 0x3000
}

/// Whether `c` is white space in the sense of `char::is_whitespace`.
pub fn is_space_char(c: char) -> (r: bool)
    ensures
        r == is_space(c),
{
    let u: u32 = c as u32;
    (0x09 <= u && u <= 0x0d) || u == 0x20 || u == 0x85 || u == 0xa0 || u == 0x1680 || (0x2000
        <= u && u <= 0x200a) || u == 0x2028 || u == 0x2029 || u == 0x202f || u == 0x205f || u
        == 0x3000
}

/// `s` without its leading white space.
pub open spec fn trim_start(s: Seq<char>) -> Seq<char>
    decreases s.len(),
{
    if s.len() > 0 && is_space(s[0]) {
        trim_start(s.drop_first())
    } else {
        s
    }
}

/// `s` without its trailing white space.
pub open spec fn trim_end(s: Seq<char>) -> Seq<char>
    decreases s.len(),
{
    if s.len() > 0 && is_space(s.last()) {
        trim_end(s.drop_last())
    } else {
        s
    }
}

/// `s` without leading and trailing white space, as `str::trim` gives it.
pub open spec fn trim(s: Seq<char>) -> Seq<char> {
    trim_end(trim_start(s))
}

proof fn lemma_trim_start_head(s: Seq<char>)
    ensures
        trim_start(s).len() <= s.len(),
        trim_start(s) == s.skip(s.len() - trim_start(s).len()),
        trim_start(s).len() > 0 ==> !is_space(trim_start(s)[0]),
    decreases s.len(),
{
    if s.len() > 0 && is_space(s[0]) {
        lemma_trim_start_head(s.drop_first());
        let t = trim_start(s.drop_first());
        assert(s.drop_first().skip(s.len() - 1 - t.len()) =~= s.skip(s.len() - t.len()));
    } else {
        assert(s.skip(0) =~= s);
    }
}

/// `c` does not occur in `s`.
pub open spec fn free_of(s: Seq<char>, c: char) -> bool {
    forall|i: int| 0 <= i < s.len() ==> s[i] != c
}

/// Trimming adds no character.
pub proof fn lemma_trim_free_of(s: Seq<char>, c: char)
    requires
        free_of(s, c),
    ensures
        free_of(trim(s), c),
{
    lemma_trim_start_head(s);
    let t = trim_start(s);
    lemma_trim_end_shape(t);
    assert forall|i: int| 0 <= i < trim(s).len() implies trim(s)[i] != c by {
        assert(trim(s)[i] == t[i]);
        assert(t[i] == s[s.len() - t.len() + i]);
    }
}

proof fn lemma_trim_end_shape(s: Seq<char>)
    ensures
        trim_end(s).len() <= s.len(),
        trim_end(s) == s.take(trim_end(s).len() as int),
        trim_end(s).len() > 0 ==> !is_space(trim_end(s).last()),
    decreases s.len(),
{
    if s.len() > 0 && is_space(s.last()) {
        lemma_trim_end_shape(s.drop_last());
        let t = trim_end(s.drop_last());
        assert(s.drop_last().take(t.len() as int) =~= s.take(t.len() as int));
    } else {
        assert(s.take(s.len() as int) =~= s);
    }
}

/// A nonempty trimmed string neither starts nor ends with white space.
pub proof fn lemma_trim_edges(s: Seq<char>)
    ensures
        trim(s).len() > 0 ==> !is_space(trim(s)[0]) && !is_space(trim(s).last()),
{
    lemma_trim_start_head(s);
    let t = trim_start(s);
    lemma_trim_end_shape(t);
    if trim(s).len() > 0 {
        assert(trim(s)[0] == t[0]);
    }
}

/// Trimming leaves alone a string without white space at either end.
pub proof fn lemma_trim_fixed(s: Seq<char>)
    requires
        s.len() == 0 || (!is_space(s[0]) && !is_space(s.last())),
    ensures
        trim(s) == s,
{
}

/// Stripping repeated prefixes leaves a suffix of the text that no longer
/// starts with the prefix.
pub proof fn lemma_strip_prefixes_done(s: Seq<char>, p: Seq<char>)
    requires
        p.len() > 0,
    ensures
        !has_prefix(strip_prefixes(s, p), p),
        has_suffix(s, strip_prefixes(s, p)),
    decreases s.len(),
{
    if has_prefix(s, p) {
        let t = s.skip(p.len() as int);
        lemma_strip_prefixes_done(t, p);
        let r = strip_prefixes(t, p);
        assert(s.skip(s.len() - r.len()) =~= t.skip(t.len() - r.len()));
    } else {
        assert(s.skip(0) =~= s);
    }
}

proof fn lemma_trim_start_drop_last(s: Seq<char>)
    requires
        s.len() > 0,
        is_space(s.last()),
    ensures
        trim_start(s.drop_last()) == if trim_start(s).len() == 0 {
            Seq::<char>::empty()
        } else {
            trim_start(s).drop_last()
        },
    decreases s.len(),
{
    if s.len() == 1 {
        assert(s.drop_last() =~= Seq::<char>::empty());
        assert(trim_start(s) == trim_start(s.drop_first()));
        assert(s.drop_first() =~= Seq::<char>::empty());
    } else if is_space(s[0]) {
        let t = s.drop_first();
        lemma_trim_start_drop_last(t);
        assert(s.drop_last().drop_first() =~= t.drop_last());
        assert(s.drop_last()[0] == s[0]);
    } else {
        assert(s.drop_last()[0] == s[0]);
    }
}

/// Dropping trailing white space before trimming changes nothing.
pub proof fn lemma_trim_drop_trailing_space(s: Seq<char>)
    requires
        s.len() > 0,
        is_space(s.last()),
    ensures
        trim(s.drop_last()) == trim(s),
{
    lemma_trim_start_drop_last(s);
    lemma_trim_start_head(s);
    let t = trim_start(s);
    if t.len() > 0 {
        assert(t.last() == s.last());
        assert(trim_end(t) == trim_end(t.drop_last()));
    }
}

/// `p` is a prefix of `s`.
pub open spec fn has_prefix(s: Seq<char>, p: Seq<char>) -> bool {
    p.len() <= s.len() && s.take(p.len() as int) == p
}

/// `p` is a suffix of `s`.
pub open spec fn has_suffix(s: Seq<char>, p: Seq<char>) -> bool {
    p.len() <= s.len() && s.skip(s.len() - p.len()) == p
}

/// `pat` occurs somewhere in `s` as a contiguous block.
pub open spec fn occurs_in(pat: Seq<char>, s: Seq<char>) -> bool {
    exists|i: int| 0 <= i && i + pat.len() <= s.len() && #[trigger] s.subrange(i, i + pat.len()) == pat
}

/// `s` with every leading repetition of a nonempty `p` removed, as
/// `str::trim_start_matches` gives it.
pub open spec fn strip_prefixes(s: Seq<char>, p: Seq<char>) -> Seq<char>
    decreases s.len(),
{
    if p.len() > 0 && has_prefix(s, p) {
        strip_prefixes(s.skip(p.len() as int), p)
    } else {
        s
    }
}

/// The bounds of `trim(c[lo..hi])` inside `c`.
pub fn trim_bounds(c: &Vec<char>, lo: usize, hi: usize) -> (r: (usize, usize))
    requires
        lo <= hi <= c.len(),
    ensures
        lo <= r.0 <= r.1 <= hi,
        c@.subrange(r.0 as int, r.1 as int) == trim(c@.subrange(lo as int, hi as int)),
{
    let ghost w = c@.subrange(lo as int, hi as int);
    let mut a: usize = lo;
    while a < hi && is_space_char(c[a])
        invariant
            lo <= a <= hi <= c.len(),
            w == c@.subrange(lo as int, hi as int),
            trim_start(w) == trim_start(c@.subrange(a as int, hi as int)),
        decreases hi - a,
    {
        proof {
            let t = c@.subrange(a as int, hi as int);
            assert(t.drop_first() =~= c@.subrange(a + 1, hi as int));
        }
        a = a + 1;
    }
    let ghost t = c@.subrange(a as int, hi as int);
    assert(trim_start(t) == t);
    let mut b: usize = hi;
    while b > a && is_space_char(c[b - 1])
        invariant
            lo <= a <= b <= hi <= c.len(),
            t == c@.subrange(a as int, hi as int),
            trim_end(t) == trim_end(c@.subrange(a as int, b as int)),
        decreases b - a,
    {
        proof {
            let u = c@.subrange(a as int, b as int);
            assert(u.drop_last() =~= c@.subrange(a as int, b - 1));
        }
        b = b - 1;
    }
    (a, b)
}

/// `str::trim`: `s` without leading and trailing white space.
pub fn trim_str(s: &str) -> (r: String)
    ensures
        r@ == trim(s@),
{
    let c = chars_of(s);
    let (a, b) = trim_bounds(&c, 0, c.len());
    assert(c@.subrange(0, c@.len() as int) =~= c@);
    string_of(&c, a, b)
}

/// The lowercase form of `s` under the full Unicode case mapping that
/// `str::to_lowercase` applies.
pub uninterp spec fn lowercase(s: Seq<char>) -> Seq<char>;

/// `str::to_lowercase`: the result is `lowercase` of the argument; the
/// Unicode mapping itself is not written out here.
#[verifier::external_body]
pub(crate) fn to_lowercase(s: &str) -> (r: String)
    ensures
        r@ == lowercase(s@),
{
    s.to_lowercase()
}

/// Appends `ch` to `s` (`String::push`).
#[verifier::external_body]
pub(crate) fn push_char(s: &mut String, ch: char)
    ensures
        final(s)@ == old(s)@.push(ch),
{
    s.push(ch);
}

/// A new string holding `c[lo..hi]`.
pub fn string_of(c: &Vec<char>, lo: usize, hi: usize) -> (r: String)
    requires
        lo <= hi <= c.len(),
    ensures
        r@ == c@.subrange(lo as int, hi as int),
{
    let mut r = String::new();
    push_range(&mut r, c, lo, hi);
    r
}

/// Appends `c[lo..hi]` to `out`.
pub fn push_range(out: &mut String, c: &Vec<char>, lo: usize, hi: usize)
    requires
        lo <= hi <= c.len(),
    ensures
        final(out)@ == old(out)@ + c@.subrange(lo as int, hi as int),
{
    let ghost start = out@;
    let mut i: usize = lo;
    while i < hi
        invariant
            lo <= i <= hi <= c.len(),
            out@ == start + c@.subrange(lo as int, i as int),
        decreases hi - i,
    {
        push_char(out, c[i]);
        assert(c@.subrange(lo as int, i + 1) =~= c@.subrange(lo as int, i as int).push(c@[i as int]));
        i = i + 1;
    }
}

/// Whether `a` and `b` hold the same characters.
pub fn same_text(a: &str, b: &str) -> (r: bool)
    ensures
        r == (a@ == b@),
{
    let x = chars_of(a);
    let y = chars_of(b);
    if x.len() != y.len() {
        return false;
    }
    let r = matches_at(&x, &y, 0);
    assert(x@.subrange(0, y@.len() as int) =~= x@);
    r
}

/// `str::trim_start_matches` for a string pattern: `s` with every leading
/// repetition of `p` removed.
pub fn strip_prefixes_str(s: &str, p: &str) -> (r: String)
    ensures
        r@ == strip_prefixes(s@, p@),
{
    let c = chars_of(s);
    let q = chars_of(p);
    let mut i: usize = 0;
    if q.len() > 0 {
        assert(c@.skip(0) =~= c@);
        while i < c.len() && matches_at(&c, &q, i)
            invariant
                i <= c.len(),
                q.len() > 0,
                c@ == s@,
                q@ == p@,
                strip_prefixes(c@, q@) == strip_prefixes(c@.skip(i as int), q@),
            decreases c.len() - i,
        {
            proof {
                let w = c@.skip(i as int);
                assert(w.take(q@.len() as int) =~= c@.subrange(i as int, i + q@.len()));
                assert(w.skip(q@.len() as int) =~= c@.skip(i + q@.len()));
            }
            i = i + q.len();
        }
        proof {
            let w = c@.skip(i as int);
            if i < c.len() && q@.len() <= w.len() {
                assert(w.take(q@.len() as int) =~= c@.subrange(i as int, i + q@.len()));
            }
            if i == c.len() {
                assert(w.len() == 0);
            }
        }
    }
    let r = string_of(&c, i, c.len());
    assert(c@.subrange(i as int, c@.len() as int) =~= c@.skip(i as int));
    r
}

/// The decimal digits of `n`, most significant first, without leading
/// zeros (`0` for zero).
pub open spec fn decimal(n: nat) -> Seq<char>
    decreases n,
{
    if n < 10 {
        seq![digit_char(n)]
    } else {
        decimal(n / 10).push(digit_char(n % 10))
    }
}

/// The ASCII digit for `d`, below ten.
pub open spec fn digit_char(d: nat) -> char {
    (48 + d) as char
}

/// How `i32`'s `Display` writes `n`: a minus sign for negatives, then the
/// decimal digits of its magnitude.
pub open spec fn signed_decimal(n: int) -> Seq<char> {
    if n < 0 {
        seq!['-'] + decimal((-n) as nat)
    } else {
        decimal(n as nat)
    }
}

/// Appends the decimal digits of `n` to `out`.
pub fn push_decimal(out: &mut String, n: u64)
    ensures
        final(out)@ == old(out)@ + decimal(n as nat),
    decreases n,
{
    if n >= 10 {
        push_decimal(out, n / 10);
    }
    let d: u64 = n % 10;
    let ch: char = (48 + d as u8) as char;
    push_char(out, ch);
    assert(ch == digit_char(d as nat));
    if n < 10 {
        assert(decimal(n as nat) == seq![digit_char(n as nat)]);
    }
}

/// Appends `n` written in decimal, with a minus sign when negative.
pub fn push_signed_decimal(out: &mut String, n: i32)
    ensures
        final(out)@ == old(out)@ + signed_decimal(n as int),
{
    if n < 0 {
        push_char(out, '-');
        let m: u64 = (0 - (n as i64)) as u64;
        push_decimal(out, m);
    } else {
        push_decimal(out, n as u64);
    }
}

/// Whether `p` occurs in `c` starting at position `at`.
pub fn matches_at(c: &Vec<char>, p: &Vec<char>, at: usize) -> (r: bool)
    requires
        at <= c.len(),
    ensures
        r == (at + p.len() <= c.len() && c@.subrange(at as int, at + p.len()) == p@),
{
    if p.len() > c.len() - at {
        return false;
    }
    let mut j: usize = 0;
    while j < p.len()
        invariant
            j <= p.len(),
            at + p.len() <= c.len(),
            forall|k: int| 0 <= k < j ==> c@[at + k] == p@[k],
        decreases p.len() - j,
    {
        if c[at + j] != p[j] {
            assert(c@.subrange(at as int, at + p.len())[j as int] != p@[j as int]);
            return false;
        }
        j = j + 1;
    }
    assert(c@.subrange(at as int, at + p.len()) =~= p@);
    true
}

/// `str::starts_with` for a string pattern.
pub fn starts_with(s: &str, p: &str) -> (r: bool)
    ensures
        r == has_prefix(s@, p@),
{
    let c = chars_of(s);
    let q = chars_of(p);
    let r = matches_at(&c, &q, 0);
    assert(c@.take(q@.len() as int) =~= c@.subrange(0, q@.len() as int));
    r
}

/// `str::ends_with` for a string pattern.
pub fn ends_with(s: &str, p: &str) -> (r: bool)
    ensures
        r == has_suffix(s@, p@),
{
    let c = chars_of(s);
    let q = chars_of(p);
    if q.len() > c.len() {
        return false;
    }
    let r = matches_at(&c, &q, c.len() - q.len());
    assert(c@.skip(c@.len() - q@.len()) =~= c@.subrange(c@.len() - q@.len(), c@.len() as int));
    r
}

/// `str::contains` for a string pattern.
pub fn contains(s: &str, p: &str) -> (r: bool)
    ensures
        r == occurs_in(p@, s@),
{
    let c = chars_of(s);
    let q = chars_of(p);
    if q.len() > c.len() {
        return false;
    }
    let mut i: usize = 0;
    let last: usize = c.len() - q.len();
    loop
        invariant
            q.len() <= c.len(),
            last == c.len() - q.len(),
            i <= last,
            c@ == s@,
            q@ == p@,
            forall|k: int| 0 <= k < i ==> #[trigger] c@.subrange(k, k + q.len()) != q@,
        decreases last - i,
    {
        if matches_at(&c, &q, i) {
            return true;
        }
        if i == last {
            return false;
        }
        i = i + 1;
    }
}


/// The pieces of `s` between the occurrences of `sep`, as `str::split`
/// yields them; there is always one more piece than there are separators.
pub open spec fn pieces(s: Seq<char>, sep: char) -> Seq<Seq<char>>
    decreases s.len(),
{
    if s.len() == 0 {
        seq![Seq::empty()]
    } else if s.last() == sep {
        pieces(s.drop_last(), sep).push(Seq::empty())
    } else {
        let p = pieces(s.drop_last(), sep);
        p.update(p.len() - 1, p.last().push(s.last()))
    }
}

proof fn lemma_pieces_shape(s: Seq<char>, sep: char)
    ensures
        pieces(s, sep).len() >= 1,
        forall|k: int| 0 <= k < pieces(s, sep).len() ==> free_of(#[trigger] pieces(s, sep)[k], sep),
    decreases s.len(),
{
    if s.len() > 0 {
        lemma_pieces_shape(s.drop_last(), sep);
        let p = pieces(s.drop_last(), sep);
        if s.last() != sep {
            assert forall|k: int| 0 <= k < pieces(s, sep).len() implies free_of(
                #[trigger] pieces(s, sep)[k],
                sep,
            ) by {
                if k < p.len() - 1 {
                    assert(pieces(s, sep)[k] == p[k]);
                } else {
                    assert(free_of(p.last(), sep));
                }
            }
        } else {
            assert forall|k: int| 0 <= k < pieces(s, sep).len() implies free_of(
                #[trigger] pieces(s, sep)[k],
                sep,
            ) by {
                if k < p.len() {
                    assert(pieces(s, sep)[k] == p[k]);
                }
            }
        }
    }
}

/// Appending a separator starts a new, empty piece.
pub proof fn lemma_pieces_sep(x: Seq<char>, sep: char)
    ensures
        pieces(x + seq![sep], sep) == pieces(x, sep).push(Seq::empty()),
{
    assert((x + seq![sep]).drop_last() =~= x);
}

/// Appending text without separators extends the last piece.
pub proof fn lemma_pieces_extend(x: Seq<char>, b: Seq<char>, sep: char)
    requires
        free_of(b, sep),
    ensures
        pieces(x + b, sep) == pieces(x, sep).update(
            pieces(x, sep).len() - 1,
            pieces(x, sep).last() + b,
        ),
    decreases b.len(),
{
    lemma_pieces_shape(x, sep);
    let p = pieces(x, sep);
    if b.len() == 0 {
        assert(x + b =~= x);
        assert(p.last() + b =~= p.last());
        assert(p.update(p.len() - 1, p.last() + b) =~= p);
    } else {
        let b0 = b.drop_last();
        lemma_pieces_extend(x, b0, sep);
        assert((x + b).drop_last() =~= x + b0);
        assert((x + b).last() == b.last());
        let q = pieces(x + b0, sep);
        assert((p.last() + b0).push(b.last()) =~= p.last() + b);
        assert(q.update(q.len() - 1, q.last().push(b.last())) =~= p.update(
            p.len() - 1,
            p.last() + b,
        ));
    }
}

/// The pieces of a concatenation: the last piece of `x` and the first of
/// `b` merge, the others stay as they are.
pub proof fn lemma_pieces_concat(x: Seq<char>, b: Seq<char>, sep: char)
    ensures
        pieces(x + b, sep) == pieces(x, sep).drop_last() + seq![
            pieces(x, sep).last() + pieces(b, sep)[0],
        ] + pieces(b, sep).skip(1),
    decreases b.len(),
{
    lemma_pieces_shape(x, sep);
    lemma_pieces_shape(b, sep);
    let p = pieces(x, sep);
    let d = p.drop_last();
    let l = p.last();
    if b.len() == 0 {
        assert(x + b =~= x);
        assert(pieces(b, sep) == seq![Seq::<char>::empty()]);
        assert(l + Seq::<char>::empty() =~= l);
        assert(d + seq![l] + pieces(b, sep).skip(1) =~= p);
    } else {
        let b0 = b.drop_last();
        let c = b.last();
        lemma_pieces_concat(x, b0, sep);
        lemma_pieces_shape(b0, sep);
        assert((x + b).drop_last() =~= x + b0);
        assert((x + b).last() == c);
        let q = pieces(b0, sep);
        let r = pieces(x + b0, sep);
        assert(r == d + seq![l + q[0]] + q.skip(1));
        if c == sep {
            assert(pieces(b, sep) == q.push(Seq::<char>::empty()));
            assert(q.push(Seq::<char>::empty())[0] == q[0]);
            assert(q.push(Seq::<char>::empty()).skip(1) =~= q.skip(1).push(Seq::<char>::empty()));
            assert(r.push(Seq::<char>::empty()) =~= d + seq![l + q[0]] + q.skip(1).push(
                Seq::<char>::empty(),
            ));
        } else {
            let pb = q.update(q.len() - 1, q.last().push(c));
            assert(pieces(b, sep) == pb);
            if q.len() == 1 {
                assert(pb =~= seq![q[0].push(c)]);
                assert((l + q[0]).push(c) =~= l + q[0].push(c));
                assert(r.update(r.len() - 1, r.last().push(c)) =~= d + seq![l + pb[0]] + pb.skip(
                    1,
                ));
            } else {
                assert(pb[0] == q[0]);
                assert(pb.skip(1) =~= q.skip(1).update(q.len() - 2, q.last().push(c)));
                assert(r.update(r.len() - 1, r.last().push(c)) =~= d + seq![l + pb[0]] + pb.skip(
                    1,
                ));
            }
        }
    }
}

/// The lines of `a`, a line feed, then `b`: every piece of `a` ends a line
/// there, then come the lines of `b`.
pub proof fn lemma_lines_after_newline(a: Seq<char>, b: Seq<char>)
    ensures
        lines(a + seq!['\n'] + b) == pieces(a, '\n').map_values(|l: Seq<char>| strip_cr(l))
            + lines(b),
{
    let x = a + seq!['\n'];
    lemma_pieces_sep(a, '\n');
    lemma_pieces_concat(x, b, '\n');
    lemma_pieces_shape(a, '\n');
    lemma_pieces_shape(b, '\n');
    let pa = pieces(a, '\n');
    let pb = pieces(b, '\n');
    let e = Seq::<char>::empty();
    assert(pa.push(e).drop_last() =~= pa);
    assert(e + pb[0] =~= pb[0]);
    let whole = pa + pb;
    assert(pieces(x + b, '\n') =~= whole);
    assert(whole.last() == pb.last());
    assert(whole.drop_last() =~= pa + pb.drop_last());
    let f = |l: Seq<char>| strip_cr(l);
    assert((pa + pb.drop_last()).map_values(f) =~= pa.map_values(f) + pb.drop_last().map_values(f));
    if pb.last().len() == 0 {
        assert(lines(x + b) =~= pa.map_values(f) + lines(b));
    } else {
        assert(lines(x + b) =~= pa.map_values(f) + lines(b));
    }
}

/// No line holds a line feed.
pub proof fn lemma_lines_free_of_newline(s: Seq<char>)
    ensures
        forall|k: int| 0 <= k < lines(s).len() ==> free_of(#[trigger] lines(s)[k], '\n'),
{
    lemma_pieces_shape(s, '\n');
    let p = pieces(s, '\n');
    assert forall|k: int| 0 <= k < lines(s).len() implies free_of(#[trigger] lines(s)[k], '\n') by {
        if k < p.len() - 1 {
            let l = p[k];
            assert(free_of(l, '\n'));
            assert(lines(s)[k] == strip_cr(l));
            assert(forall|i: int| 0 <= i < strip_cr(l).len() ==> strip_cr(l)[i] == l[i]);
        } else {
            assert(lines(s)[k] == p.last());
        }
    }
}

/// `l` without one trailing carriage return.
pub open spec fn strip_cr(l: Seq<char>) -> Seq<char> {
    if l.len() > 0 && l.last() == '\r' {
        l.drop_last()
    } else {
        l
    }
}

/// The lines of `s` as `str::lines` yields them: split at line feeds, a
/// carriage return just before a line feed dropped, and no empty last
/// line after a final line feed.
pub open spec fn lines(s: Seq<char>) -> Seq<Seq<char>> {
    let p = pieces(s, '\n');
    let ended = p.drop_last().map_values(|l: Seq<char>| strip_cr(l));
    if p.last().len() == 0 {
        ended
    } else {
        ended.push(p.last())
    }
}

/// The bounds, inside `c`, of each line of `c` in the sense of `lines`.
pub fn line_bounds(c: &Vec<char>) -> (r: Vec<(usize, usize)>)
    ensures
        r.len() == lines(c@).len(),
        forall|k: int|
            0 <= k < r.len() ==> {
                &&& (#[trigger] r[k]).0 <= r[k].1 <= c.len()
                &&& c@.subrange(r[k].0 as int, r[k].1 as int) == lines(c@)[k]
            },
{
    let mut r: Vec<(usize, usize)> = Vec::new();
    let mut start: usize = 0;
    let mut i: usize = 0;
    let ghost mut done: Seq<Seq<char>> = Seq::empty();
    assert(c@.take(0) =~= Seq::<char>::empty());
    assert(done.push(c@.subrange(0, 0)) =~= seq![Seq::<char>::empty()]);
    while i < c.len()
        invariant
            start <= i <= c.len(),
            pieces(c@.take(i as int), '\n') == done.push(c@.subrange(start as int, i as int)),
            r.len() == done.len(),
            forall|k: int|
                0 <= k < r.len() ==> {
                    &&& (#[trigger] r[k]).0 <= r[k].1 <= c.len()
                    &&& c@.subrange(r[k].0 as int, r[k].1 as int) == strip_cr(done[k])
                },
        decreases c.len() - i,
    {
        let ghost seg = c@.subrange(start as int, i as int);
        assert(c@.take(i + 1).drop_last() =~= c@.take(i as int));
        if c[i] == '\n' {
            let end: usize = if i > start && c[i - 1] == '\r' {
                i - 1
            } else {
                i
            };
            assert(c@.subrange(start as int, end as int) =~= strip_cr(seg));
            r.push((start, end));
            proof {
                done = done.push(seg);
                assert(c@.subrange(i + 1, i + 1) =~= Seq::<char>::empty());
            }
            start = i + 1;
        } else {
            proof {
                let p = done.push(seg);
                assert(seg.push(c@[i as int]) =~= c@.subrange(start as int, i + 1));
                assert(p.update(p.len() - 1, p.last().push(c@[i as int])) =~= done.push(
                    c@.subrange(start as int, i + 1),
                ));
            }
        }
        i = i + 1;
    }
    assert(c@.take(c@.len() as int) =~= c@);
    let ghost p = done.push(c@.subrange(start as int, c.len() as int));
    assert(p.drop_last() =~= done);
    if start < c.len() {
        r.push((start, c.len()));
    }
    assert(r.len() == lines(c@).len());
    r
}

} // verus!
