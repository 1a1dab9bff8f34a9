use vstd::prelude::*;
use crate::text::{
    chars_of, decimal, digit_char, free_of, has_prefix, lemma_pieces_extend, lemma_pieces_sep, pieces,
    push_char, strip_prefixes,
};

verus! {

/// `c` is one of the ASCII digits `0` to `9`.
pub open spec fn is_ascii_digit(c: char) -> bool {
    48 <= c as u32 <= 57
}

/// The number that a string of ASCII digits spells in decimal.
pub open spec fn digits_value(d: Seq<char>) -> nat
    decreases d.len(),
{
    if d.len() == 0 {
        0
    } else {
        digits_value(d.drop_last()) * 10 + (d.last() as u32 - 48) as nat
    }
}

/// Every character of `d` is an ASCII digit.
pub open spec fn all_digits(d: Seq<char>) -> bool {
    forall|i: int| 0 <= i < d.len() ==> is_ascii_digit(#[trigger] d[i])
}

/// `p` without one leading `+` sign, unless `p` is just that sign.
pub open spec fn unsigned_digits(p: Seq<char>) -> Seq<char> {
    if p.len() > 1 && p[0] == '+' {
        p.drop_first()
    } else {
        p
    }
}

/// What `u32::from_str` gives for `p`: an optional `+`, then at least one
/// ASCII digit, and a value that fits in a `u32`.
pub open spec fn parse_u32(p: Seq<char>) -> Option<u32> {
    let d = unsigned_digits(p);
    if d.len() > 0 && all_digits(d) && digits_value(d) <= u32::MAX {
        Some(digits_value(d) as u32)
    } else {
        None
    }
}

/// The numbers among `ps` that parse, in order.
pub open spec fn parsed_parts(ps: Seq<Seq<char>>) -> Seq<u32>
    decreases ps.len(),
{
    if ps.len() == 0 {
        Seq::empty()
    } else {
        match parse_u32(ps.last()) {
            Some(n) => parsed_parts(ps.drop_last()).push(n),
            None => parsed_parts(ps.drop_last()),
        }
    }
}

/// Entry `i` of `ns`, or 0 when there is none.
pub open spec fn part_or_zero(ns: Seq<u32>, i: int) -> u32 {
    if 0 <= i < ns.len() {
        ns[i]
    } else {
        0
    }
}

/// The (major, minor, patch) numbers of a version string: leading `v`s
/// dropped, split at `.`, the pieces that are not numbers skipped, and
/// missing numbers read as 0.
pub open spec fn version_triple(v: Seq<char>) -> (u32, u32, u32) {
    let ns = parsed_parts(pieces(strip_prefixes(v, seq!['v']), '.'));
    (part_or_zero(ns, 0), part_or_zero(ns, 1), part_or_zero(ns, 2))
}

/// Lexicographic order on version triples.
pub open spec fn triple_less(a: (u32, u32, u32), b: (u32, u32, u32)) -> bool {
    ||| a.0 < b.0
    ||| a.0 == b.0 && a.1 < b.1
    ||| a.0 == b.0 && a.1 == b.1 && a.2 < b.2
}

/// `latest` names a later release than `current`.
pub open spec fn newer(current: Seq<char>, latest: Seq<char>) -> bool {
    triple_less(version_triple(current), version_triple(latest))
}

/// `u32::from_str` on `c[lo..hi]`.
pub fn parse_u32_range(c: &Vec<char>, lo: usize, hi: usize) -> (r: Option<u32>)
    requires
        lo <= hi <= c.len(),
    ensures
        r == parse_u32(c@.subrange(lo as int, hi as int)),
{
    let ghost p = c@.subrange(lo as int, hi as int);
    let start: usize = if hi - lo > 1 && c[lo] == '+' {
        lo + 1
    } else {
        lo
    };
    let ghost d = c@.subrange(start as int, hi as int);
    assert(d == unsigned_digits(p));
    if start == hi {
        return None;
    }
    let mut acc: u64 = 0;
    let mut overflow = false;
    let mut i: usize = start;
    while i < hi
        invariant
            start <= i <= hi <= c.len(),
            d == c@.subrange(start as int, hi as int),
            p == c@.subrange(lo as int, hi as int),
            d == unsigned_digits(p),
            forall|k: int| start <= k < i ==> is_ascii_digit(#[trigger] c@[k]),
            !overflow ==> acc == digits_value(c@.subrange(start as int, i as int)) && acc
                <= u32::MAX,
            overflow ==> digits_value(c@.subrange(start as int, i as int)) > u32::MAX,
        decreases hi - i,
    {
        let u: u32 = c[i] as u32;
        if u < 48 || u > 57 {
            assert(d[i - start] == c@[i as int]);
            assert(!is_ascii_digit(d[i - start]));
            return None;
        }
        let ghost prev = c@.subrange(start as int, i as int);
        assert(c@.subrange(start as int, i + 1).drop_last() =~= prev);
        if !overflow {
            acc = acc * 10 + (u - 48) as u64;
            if acc > 0xffff_ffff {
                overflow = true;
            }
        }
        i = i + 1;
    }
    assert forall|k: int| 0 <= k < d.len() implies is_ascii_digit(#[trigger] d[k]) by {
        assert(d[k] == c@[start + k]);
    }
    assert(c@.subrange(start as int, hi as int) == d);
    if overflow {
        None
    } else {
        Some(acc as u32)
    }
}

/// The (major, minor, patch) numbers of a version string such as
/// `v1.2.3`.
pub fn parse_version(v: &str) -> (r: (u32, u32, u32))
    ensures
        r == version_triple(v@),
{
    let c = chars_of(v);
    let ghost vv = seq!['v'];
    let mut i: usize = 0;
    assert(c@.skip(0) =~= c@);
    while i < c.len() && c[i] == 'v'
        invariant
            i <= c.len(),
            c@ == v@,
            vv == seq!['v'],
            strip_prefixes(c@, vv) == strip_prefixes(c@.skip(i as int), vv),
        decreases c.len() - i,
    {
        proof {
            let w = c@.skip(i as int);
            assert(w[0] == c@[i as int]);
            assert(w.take(1) =~= vv);
            assert(w.skip(1) =~= c@.skip(i + 1));
        }
        i = i + 1;
    }
    proof {
        let w = c@.skip(i as int);
        if has_prefix(w, vv) {
            assert(w[0] == w.take(1)[0]);
        }
    }
    let first: usize = i;
    let ghost body = c@.skip(first as int);
    let mut nums: Vec<u32> = Vec::new();
    let mut start: usize = first;
    let ghost mut done: Seq<Seq<char>> = Seq::empty();
    assert(c@.subrange(first as int, first as int) =~= Seq::<char>::empty());
    assert(done.push(c@.subrange(first as int, first as int)) =~= seq![Seq::<char>::empty()]);
    while i < c.len()
        invariant
            first <= start <= i <= c.len(),
            pieces(c@.subrange(first as int, i as int), '.') == done.push(
                c@.subrange(start as int, i as int),
            ),
            nums@ == parsed_parts(done),
        decreases c.len() - i,
    {
        let ghost seg = c@.subrange(start as int, i as int);
        assert(c@.subrange(first as int, i + 1).drop_last() =~= c@.subrange(first as int, i as int));
        if c[i] == '.' {
            let n = parse_u32_range(&c, start, i);
            if let Some(x) = n {
                nums.push(x);
            }
            proof {
                assert(done.push(seg).drop_last() =~= done);
                done = done.push(seg);
                assert(c@.subrange(i + 1, i + 1) =~= Seq::<char>::empty());
            }
            start = i + 1;
        } else {
            proof {
                let p = done.push(seg);
                assert(seg.push(c@[i as int]) =~= c@.subrange(start as int, i + 1));
                assert(p.update(p.len() - 1, p.last().push(c@[i as int])) =~= done.push(
                    c@.subrange(start as int, i + 1),
                ));
            }
        }
        i = i + 1;
    }
    let n = parse_u32_range(&c, start, c.len());
    if let Some(x) = n {
        nums.push(x);
    }
    proof {
        let last = c@.subrange(start as int, c@.len() as int);
        assert(done.push(last).drop_last() =~= done);
        assert(c@.subrange(first as int, c@.len() as int) =~= body);
    }
    let major: u32 = if nums.len() > 0 { nums[0] } else { 0 };
    let minor: u32 = if nums.len() > 1 { nums[1] } else { 0 };
    let patch: u32 = if nums.len() > 2 { nums[2] } else { 0 };
    (major, minor, patch)
}

/// Whether `latest` names a later release than `current`: both are read
/// as (major, minor, patch) and compared in that order.
pub fn is_newer(current: &str, latest: &str) -> (r: bool)
    ensures
        r == newer(current@, latest@),
{
    let a = parse_version(current);
    let b = parse_version(latest);
    a.0 < b.0 || (a.0 == b.0 && a.1 < b.1) || (a.0 == b.0 && a.1 == b.1 && a.2 < b.2)
}


/// The string field `key` of the JSON document `body`, as `serde_json`
/// reads it: `Err` with the parser's message when `body` is not JSON,
/// `Ok(None)` when the document is not an object, lacks the field, or the
/// field is not a string.
pub uninterp spec fn json_string_field(body: Seq<char>, key: Seq<char>) -> Result<
    Option<Seq<char>>,
    Seq<char>,
>;

/// `serde_json::from_str::<serde_json::Value>` on `body`, then
/// `Value::get(key)` and `Value::as_str` on the document, the parse error
/// turned into its message: the result is `json_string_field` of the
/// arguments. The JSON grammar itself is not written out here.
#[verifier::external_body]
fn read_json_string_field(body: &str, key: &str) -> (r: Result<Option<String>, String>)
    ensures
        (match r {
            Ok(t) => json_string_field(body@, key@) == Ok::<Option<Seq<char>>, Seq<char>>(
                t.deep_view(),
            ),
            Err(e) => json_string_field(body@, key@) == Err::<Option<Seq<char>>, Seq<char>>(e@),
        }),
{
    match serde_json::from_str::<serde_json::Value>(body) {
        Ok(doc) => Ok(doc.get(key).and_then(serde_json::Value::as_str).map(str::to_owned)),
        Err(e) => Err(e.to_string()),
    }
}

/// The release tag, or the reason there is none, given what reading the
/// `tag_name` field of the release document gave.
pub open spec fn tag_outcome(field: Result<Option<Seq<char>>, Seq<char>>) -> Result<
    Seq<char>,
    Seq<char>,
> {
    match field {
        Err(e) => Err("Failed to parse JSON: "@ + e),
        Ok(None) => Err("No tag_name in response"@),
        Ok(Some(t)) => Ok(t),
    }
}

/// The release tag of a release document's body, or the message that
/// says why there is none.
pub open spec fn release_tag(body: Seq<char>) -> Result<Seq<char>, Seq<char>> {
    tag_outcome(json_string_field(body, "tag_name"@))
}

/// `r`, with each string taken by its characters.
pub open spec fn string_result_view(r: Result<String, String>) -> Result<Seq<char>, Seq<char>> {
    match r {
        Ok(t) => Ok(t@),
        Err(e) => Err(e@),
    }
}

/// Turns the outcome of reading the `tag_name` field into the release tag
/// or the message that `check_for_update` reports.
pub fn tag_from_field(field: Result<Option<String>, String>) -> (r: Result<String, String>)
    ensures
        string_result_view(r) == tag_outcome(
            match field {
                Ok(t) => Ok::<Option<Seq<char>>, Seq<char>>(t.deep_view()),
                Err(e) => Err::<Option<Seq<char>>, Seq<char>>(e@),
            },
        ),
{
    match field {
        Err(e) => {
            let mut m = "Failed to parse JSON: ".to_owned();
            m.append(e.as_str());
            Err(m)
        },
        Ok(None) => Err("No tag_name in response".to_owned()),
        Ok(Some(t)) => Ok(t),
    }
}

/// The `tag_name` of the latest-release document `body`.
pub fn release_tag_from_body(body: &str) -> (r: Result<String, String>)
    ensures
        string_result_view(r) == release_tag(body@),
{
    let field = read_json_string_field(body, "tag_name");
    tag_from_field(field)
}

/// `v` followed by `version`: how the running release names itself.
pub open spec fn current_tag(version: Seq<char>) -> Seq<char> {
    seq!['v'] + version
}

/// The release to offer when the running version is `current_version`
/// and the latest release is tagged `latest_tag`: that tag when it is
/// newer, else none.
pub fn update_offer(current_version: &str, latest_tag: &str) -> (r: Option<String>)
    ensures
        r is Some <==> newer(current_tag(current_version@), latest_tag@),
        r matches Some(t) ==> t@ == latest_tag@,
{
    let mut current = String::new();
    push_char(&mut current, 'v');
    current.append(current_version);
    assert(current@ =~= current_tag(current_version@));
    if is_newer(current.as_str(), latest_tag) {
        Some(latest_tag.to_owned())
    } else {
        None
    }
}

/// Decides on an update from the body of the latest-release document:
/// the error of reading its tag, or the tag to offer if it is newer than
/// `current_version`.
pub fn update_from_release_body(current_version: &str, body: &str) -> (r: Result<
    Option<String>,
    String,
>)
    ensures
        (match release_tag(body@) {
            Err(e) => r matches Err(m) && m@ == e,
            Ok(tag) => r matches Ok(offer) && (offer is Some <==> newer(
                current_tag(current_version@),
                tag,
            )) && (offer matches Some(t) ==> t@ == tag),
        }),
{
    match release_tag_from_body(body) {
        Err(e) => Err(e),
        Ok(tag) => Ok(update_offer(current_version, tag.as_str())),
    }
}

/// The address of the latest-release document of the project.
pub fn latest_release_url() -> (r: String)
    ensures
        r@ == "https://api.github.com/repos/lyrx2k/CoreScribe/releases/latest"@,
{
    "https://api.github.com/repos/lyrx2k/CoreScribe/releases/latest".to_owned()
}

/// The download address of the Windows executable of release `tag`.
pub fn release_download_url(tag: &str) -> (r: String)
    ensures
        r@ == "https://github.com/lyrx2k/CoreScribe/releases/download/"@ + tag@
            + "/corescribe.exe"@,
{
    let mut r = "https://github.com/lyrx2k/CoreScribe/releases/download/".to_owned();
    r.append(tag);
    r.append("/corescribe.exe");
    r
}

/// A version triple as one number: major, then minor, then patch, each
/// a 32-bit digit.
pub open spec fn version_number(t: (u32, u32, u32)) -> int {
    t.0 * 0x1_0000_0000_0000_0000 + t.1 * 0x1_0000_0000 + t.2
}

proof fn lemma_number_order(a: (u32, u32, u32), b: (u32, u32, u32))
    ensures
        triple_less(a, b) <==> version_number(a) < version_number(b),
{
    let (a0, a1, a2) = (a.0 as int, a.1 as int, a.2 as int);
    let (b0, b1, b2) = (b.0 as int, b.1 as int, b.2 as int);
    let m = 0x1_0000_0000int;
    assert(0 <= a1 * m + a2 < m * m) by (nonlinear_arith)
        requires
            0 <= a1 < m,
            0 <= a2 < m,
            m == 0x1_0000_0000int,
    ;
    assert(0 <= b1 * m + b2 < m * m) by (nonlinear_arith)
        requires
            0 <= b1 < m,
            0 <= b2 < m,
            m == 0x1_0000_0000int,
    ;
    assert(m * m == 0x1_0000_0000_0000_0000int);
    if a0 < b0 {
        assert(a0 * (m * m) + m * m <= b0 * (m * m)) by (nonlinear_arith)
            requires
                a0 < b0,
                m * m > 0,
        ;
    } else if a0 > b0 {
        assert(b0 * (m * m) + m * m <= a0 * (m * m)) by (nonlinear_arith)
            requires
                b0 < a0,
                m * m > 0,
        ;
    } else if a1 < b1 {
        assert(a1 * m + m <= b1 * m) by (nonlinear_arith)
            requires
                a1 < b1,
                m > 0,
        ;
    } else if a1 > b1 {
        assert(b1 * m + m <= a1 * m) by (nonlinear_arith)
            requires
                b1 < a1,
                m > 0,
        ;
    }
}

/// Versions compare as numbers: by major, then minor, then patch, each
/// compared numerically. Equivalently, `latest` is newer exactly when its
/// triple read as one number is larger.
pub proof fn lemma_newer_by_numbers(current: Seq<char>, latest: Seq<char>)
    ensures
        newer(current, latest) <==> version_number(version_triple(current)) < version_number(
            version_triple(latest),
        ),
        version_triple(current).0 < version_triple(latest).0 ==> newer(current, latest),
        version_triple(current).0 > version_triple(latest).0 ==> !newer(current, latest),
        version_triple(current).0 == version_triple(latest).0 && version_triple(current).1
            < version_triple(latest).1 ==> newer(current, latest),
        version_triple(current).0 == version_triple(latest).0 && version_triple(current).1
            > version_triple(latest).1 ==> !newer(current, latest),
        version_triple(current).0 == version_triple(latest).0 && version_triple(current).1
            == version_triple(latest).1 ==> (newer(current, latest) <==> version_triple(current).2
            < version_triple(latest).2),
{
    lemma_number_order(version_triple(current), version_triple(latest));
}

proof fn lemma_decimal_digits(n: nat)
    ensures
        decimal(n).len() > 0,
        all_digits(decimal(n)),
        digits_value(decimal(n)) == n,
    decreases n,
{
    let d = (n % 10) as nat;
    assert(digit_char(d) as u32 == 48 + d);
    if n < 10 {
        assert(d == n);
        let s1 = seq![digit_char(n)];
        assert(decimal(n) == s1);
        assert(s1.len() == 1);
        assert(s1.drop_last() =~= Seq::<char>::empty());
        assert(s1.last() == digit_char(n));
        assert(digits_value(s1.drop_last()) == 0);
        assert(digits_value(s1) == digits_value(s1.drop_last()) * 10 + (s1.last() as u32 - 48) as nat);
    } else {
        lemma_decimal_digits(n / 10);
        let p = decimal(n / 10);
        assert(decimal(n) == p.push(digit_char(d)));
        assert(p.push(digit_char(d)).drop_last() =~= p);
        assert(p.push(digit_char(d)).last() == digit_char(d));
        assert(n == (n / 10) * 10 + n % 10);
        assert(digits_value(decimal(n)) == digits_value(p) * 10 + (digit_char(d) as u32 - 48));
        assert forall|i: int| 0 <= i < decimal(n).len() implies is_ascii_digit(
            #[trigger] decimal(n)[i],
        ) by {
            if i < p.len() {
                assert(decimal(n)[i] == p[i]);
            }
        }
    }
}

/// The decimal digits of a 32-bit number parse back to that number.
pub proof fn lemma_decimal_parses(n: u32)
    ensures
        parse_u32(decimal(n as nat)) == Some(n),
        free_of(decimal(n as nat), '.'),
        decimal(n as nat)[0] != 'v',
{
    lemma_decimal_digits(n as nat);
    let d = decimal(n as nat);
    assert(is_ascii_digit(d[0]));
    assert(unsigned_digits(d) == d);
    assert forall|i: int| 0 <= i < d.len() implies d[i] != '.' by {
        assert(is_ascii_digit(d[i]));
    }
}

/// A piece parses only when it is at least one ASCII digit, optionally
/// after a single `+`, and what it gives is the value of those digits.
pub proof fn lemma_parse_u32_shape(p: Seq<char>)
    ensures
        parse_u32(p) is Some ==> {
            &&& p.len() > 0
            &&& forall|i: int| 0 <= i < p.len() ==> (is_ascii_digit(#[trigger] p[i]) || (i == 0
                && p[i] == '+' && p.len() > 1))
        },
        parse_u32(p) is Some && p[0] != '+' ==> parse_u32(p)->Some_0 as nat == digits_value(p),
        parse_u32(p) is Some && p[0] == '+' ==> parse_u32(p)->Some_0 as nat == digits_value(
            p.drop_first(),
        ),
{
    if parse_u32(p) is Some {
        let d = unsigned_digits(p);
        if p.len() > 1 && p[0] == '+' {
            assert forall|i: int| 0 <= i < p.len() implies (is_ascii_digit(#[trigger] p[i]) || (i
                == 0 && p[i] == '+' && p.len() > 1)) by {
                if i > 0 {
                    assert(p[i] == d[i - 1]);
                }
            }
        } else {
            assert(is_ascii_digit(d[0]));
        }
    }
}

/// Reading back a version written as `v` and three numbers separated by
/// dots gives those three numbers.
pub proof fn lemma_version_round_trip(major: u32, minor: u32, patch: u32)
    ensures
        version_triple(seq!['v'] + decimal(major as nat) + seq!['.'] + decimal(minor as nat)
            + seq!['.'] + decimal(patch as nat)) == (major, minor, patch),
{
    let a = decimal(major as nat);
    let b = decimal(minor as nat);
    let c = decimal(patch as nat);
    lemma_decimal_parses(major);
    lemma_decimal_parses(minor);
    lemma_decimal_parses(patch);
    let body = a + seq!['.'] + b + seq!['.'] + c;
    let v = seq!['v'] + a + seq!['.'] + b + seq!['.'] + c;
    assert(v.take(1) =~= seq!['v']);
    assert(v.skip(1) =~= body);
    assert(body[0] == a[0]);
    assert(!has_prefix(body, seq!['v'])) by {
        if has_prefix(body, seq!['v']) {
            assert(body.take(1)[0] == body[0]);
        }
    }
    let e = Seq::<char>::empty();
    lemma_pieces_extend(e, a, '.');
    assert(e + a =~= a);
    assert(pieces(e, '.') == seq![e]);
    assert(pieces(a, '.') =~= seq![a]);
    lemma_pieces_sep(a, '.');
    lemma_pieces_extend(a + seq!['.'], b, '.');
    assert(seq![a, e].update(1, e + b) =~= seq![a, b]);
    assert(e + b =~= b);
    lemma_pieces_sep(a + seq!['.'] + b, '.');
    lemma_pieces_extend(a + seq!['.'] + b + seq!['.'], c, '.');
    assert(e + c =~= c);
    assert(seq![a, b, e].update(2, e + c) =~= seq![a, b, c]);
    let ps = seq![a, b, c];
    assert(pieces(body, '.') == ps);
    assert(ps.drop_last() =~= seq![a, b]);
    assert(seq![a, b].drop_last() =~= seq![a]);
    assert(seq![a].drop_last() =~= Seq::<Seq<char>>::empty());
    let ns = parsed_parts(ps);
    assert(seq![a].last() == a);
    assert(seq![a, b].last() == b);
    assert(ps.last() == c);
    assert(parsed_parts(Seq::<Seq<char>>::empty()) == Seq::<u32>::empty());
    assert(parsed_parts(seq![a]) == Seq::<u32>::empty().push(major));
    assert(parsed_parts(seq![a, b]) == Seq::<u32>::empty().push(major).push(minor));
    assert(ns == Seq::<u32>::empty().push(major).push(minor).push(patch));
    assert(strip_prefixes(body, seq!['v']) == body);
    assert(has_prefix(v, seq!['v']));
    assert(strip_prefixes(v, seq!['v']) == strip_prefixes(v.skip(1), seq!['v']));
    assert(strip_prefixes(v, seq!['v']) == body);
    assert(part_or_zero(ns, 0) == major);
    assert(part_or_zero(ns, 2) == patch);
}

/// No version is newer than itself.
pub proof fn lemma_newer_irreflexive(v: Seq<char>)
    ensures
        !newer(v, v),
{
}

/// If `b` is newer than `a`, then `a` is not newer than `b`.
pub proof fn lemma_newer_asymmetric(a: Seq<char>, b: Seq<char>)
    ensures
        newer(a, b) ==> !newer(b, a),
{
}

/// Newer-than is transitive.
pub proof fn lemma_newer_transitive(a: Seq<char>, b: Seq<char>, c: Seq<char>)
    ensures
        newer(a, b) && newer(b, c) ==> newer(a, c),
{
}

/// Any two versions are either the same release or one is newer.
pub proof fn lemma_newer_total(a: Seq<char>, b: Seq<char>)
    ensures
        newer(a, b) || newer(b, a) || version_triple(a) == version_triple(b),
{
}

/// A leading `v` does not change what a version string means.
pub proof fn lemma_v_prefix_ignored(a: Seq<char>, b: Seq<char>)
    ensures
        version_triple(seq!['v'] + a) == version_triple(a),
        newer(seq!['v'] + a, b) == newer(a, b),
        newer(b, seq!['v'] + a) == newer(b, a),
{
    let va = seq!['v'] + a;
    assert(va.take(1) =~= seq!['v']);
    assert(va.skip(1) =~= a);
}

} // verus!
