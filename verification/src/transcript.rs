use vstd::prelude::*;
use crate::text::{lemma_lines_after_newline, lemma_trim_drop_trailing_space, free_of, lemma_lines_free_of_newline, lemma_pieces_extend, lemma_pieces_sep, lemma_trim_free_of, pieces, strip_cr, contains, lowercase, occurs_in, to_lowercase, chars_of, is_space, line_bounds, lines, push_char, push_range, trim, trim_bounds, lemma_trim_edges, lemma_trim_fixed};

verus! {

/// A transcript line survives timestamp filtering when it does not start
/// with `[` and is not blank.
pub open spec fn keep_line(l: Seq<char>) -> bool {
    !(l.len() > 0 && l[0] == '[') && trim(l).len() > 0
}

/// The surviving lines of `ls`, each trimmed, in order.
pub open spec fn kept_lines(ls: Seq<Seq<char>>) -> Seq<Seq<char>>
    decreases ls.len(),
{
    if ls.len() == 0 {
        Seq::empty()
    } else if keep_line(ls.last()) {
        kept_lines(ls.drop_last()).push(trim(ls.last()))
    } else {
        kept_lines(ls.drop_last())
    }
}

/// `parts` joined with line feeds between them.
pub open spec fn join_lines(parts: Seq<Seq<char>>) -> Seq<char>
    decreases parts.len(),
{
    if parts.len() == 0 {
        Seq::empty()
    } else if parts.len() == 1 {
        parts[0]
    } else {
        join_lines(parts.drop_last()) + seq!['\n'] + parts.last()
    }
}

/// What a transcript becomes when timestamps are hidden: its lines that
/// neither start with `[` nor are blank, trimmed, joined by line feeds,
/// and the whole trimmed.
pub open spec fn filtered_transcript(text: Seq<char>) -> Seq<char> {
    trim(join_lines(kept_lines(lines(text))))
}

proof fn lemma_kept_lines_edges(ls: Seq<Seq<char>>)
    ensures
        forall|k: int|
            0 <= k < kept_lines(ls).len() ==> {
                &&& (#[trigger] kept_lines(ls)[k]).len() > 0
                &&& !is_space(kept_lines(ls)[k][0])
                &&& !is_space(kept_lines(ls)[k].last())
            },
    decreases ls.len(),
{
    if ls.len() > 0 {
        lemma_kept_lines_edges(ls.drop_last());
        lemma_trim_edges(ls.last());
        let prev = kept_lines(ls.drop_last());
        assert forall|k: int| 0 <= k < kept_lines(ls).len() implies {
            &&& (#[trigger] kept_lines(ls)[k]).len() > 0
            &&& !is_space(kept_lines(ls)[k][0])
            &&& !is_space(kept_lines(ls)[k].last())
        } by {
            if k < prev.len() {
                assert(kept_lines(ls)[k] == prev[k]);
            }
        }
    }
}

proof fn lemma_join_edges(parts: Seq<Seq<char>>)
    requires
        parts.len() > 0,
        forall|k: int| 0 <= k < parts.len() ==> (#[trigger] parts[k]).len() > 0,
    ensures
        join_lines(parts).len() > 0,
        join_lines(parts)[0] == parts[0][0],
        join_lines(parts).last() == parts.last().last(),
    decreases parts.len(),
{
    if parts.len() > 1 {
        lemma_join_edges(parts.drop_last());
    }
}

proof fn lemma_join_push(parts: Seq<Seq<char>>, x: Seq<char>)
    ensures
        join_lines(parts.push(x)) == if parts.len() == 0 {
            x
        } else {
            join_lines(parts) + seq!['\n'] + x
        },
{
    assert(parts.push(x).drop_last() =~= parts);
}

proof fn lemma_kept_lines_free_of_newline(ls: Seq<Seq<char>>)
    requires
        forall|k: int| 0 <= k < ls.len() ==> free_of(#[trigger] ls[k], '\n'),
    ensures
        forall|k: int| 0 <= k < kept_lines(ls).len() ==> free_of(#[trigger] kept_lines(ls)[k], '\n'),
    decreases ls.len(),
{
    if ls.len() > 0 {
        lemma_kept_lines_free_of_newline(ls.drop_last());
        lemma_trim_free_of(ls.last(), '\n');
        let prev = kept_lines(ls.drop_last());
        assert forall|k: int| 0 <= k < kept_lines(ls).len() implies free_of(
            #[trigger] kept_lines(ls)[k],
            '\n',
        ) by {
            if k < prev.len() {
                assert(kept_lines(ls)[k] == prev[k]);
            }
        }
    }
}

proof fn lemma_pieces_of_join(parts: Seq<Seq<char>>)
    requires
        parts.len() >= 1,
        forall|k: int| 0 <= k < parts.len() ==> free_of(#[trigger] parts[k], '\n'),
    ensures
        pieces(join_lines(parts), '\n') == parts,
    decreases parts.len(),
{
    let e = Seq::<char>::empty();
    if parts.len() == 1 {
        lemma_pieces_extend(e, parts[0], '\n');
        assert(e + parts[0] =~= parts[0]);
        assert(seq![e].update(0, e + parts[0]) =~= parts);
    } else {
        let init = parts.drop_last();
        lemma_pieces_of_join(init);
        let j = join_lines(init);
        lemma_pieces_sep(j, '\n');
        lemma_pieces_extend(j + seq!['\n'], parts.last(), '\n');
        assert(init.push(e).update(init.len() as int, e + parts.last()) =~= parts);
    }
}

/// The lines of a filtered transcript are exactly the input's lines that
/// survive the filter, each trimmed: no line is lost, split, or blank.
pub proof fn lemma_filtered_lines(text: Seq<char>)
    ensures
        lines(filtered_transcript(text)) == kept_lines(lines(text)),
{
    let parts = kept_lines(lines(text));
    lemma_kept_lines_edges(lines(text));
    lemma_lines_free_of_newline(text);
    lemma_kept_lines_free_of_newline(lines(text));
    if parts.len() > 0 {
        lemma_join_edges(parts);
    }
    lemma_trim_fixed(join_lines(parts));
    if parts.len() == 0 {
        assert(seq![Seq::<char>::empty()].drop_last() =~= Seq::<Seq<char>>::empty());
        assert(lines(filtered_transcript(text)) =~= parts);
    } else {
        lemma_pieces_of_join(parts);
        let ended = parts.drop_last().map_values(|l: Seq<char>| strip_cr(l));
        assert forall|k: int| 0 <= k < parts.len() - 1 implies ended[k] == parts[k] by {
            assert(is_space('\r'));
        }
        assert(ended.push(parts.last()) =~= parts);
    }
}

proof fn lemma_kept_lines_concat(xs: Seq<Seq<char>>, ys: Seq<Seq<char>>)
    ensures
        kept_lines(xs + ys) == kept_lines(xs) + kept_lines(ys),
    decreases ys.len(),
{
    if ys.len() == 0 {
        assert(xs + ys =~= xs);
        assert(kept_lines(xs) + kept_lines(ys) =~= kept_lines(xs));
    } else {
        lemma_kept_lines_concat(xs, ys.drop_last());
        assert((xs + ys).drop_last() =~= xs + ys.drop_last());
        assert((xs + ys).last() == ys.last());
        if keep_line(ys.last()) {
            assert(kept_lines(xs) + kept_lines(ys.drop_last()).push(trim(ys.last())) =~= (
            kept_lines(xs) + kept_lines(ys.drop_last())).push(trim(ys.last())));
        }
    }
}

proof fn lemma_keep_strip_cr(l: Seq<char>)
    ensures
        keep_line(strip_cr(l)) == keep_line(l),
        trim(strip_cr(l)) == trim(l),
{
    if l.len() > 0 && l.last() == '\r' {
        assert(is_space('\r'));
        lemma_trim_drop_trailing_space(l);
        if l.len() > 1 {
            assert(strip_cr(l)[0] == l[0]);
        }
    }
}

proof fn lemma_kept_lines_of_pieces(text: Seq<char>)
    ensures
        kept_lines(pieces(text, '\n').map_values(|l: Seq<char>| strip_cr(l))) == kept_lines(
            lines(text),
        ),
{
    let p = pieces(text, '\n');
    let f = |l: Seq<char>| strip_cr(l);
    let m = p.drop_last().map_values(f);
    lemma_pieces_len(text);
    assert(p.map_values(f) =~= m.push(strip_cr(p.last())));
    assert(m.push(strip_cr(p.last())).drop_last() =~= m);
    lemma_keep_strip_cr(p.last());
    if p.last().len() > 0 {
        assert(m.push(p.last()).drop_last() =~= m);
    } else {
        assert(strip_cr(p.last()) == p.last());
        assert(!keep_line(p.last())) by {
            assert(trim(p.last()) == p.last());
        }
    }
}

proof fn lemma_pieces_len(s: Seq<char>)
    ensures
        pieces(s, '\n').len() >= 1,
    decreases s.len(),
{
    if s.len() > 0 {
        lemma_pieces_len(s.drop_last());
    }
}

proof fn lemma_filtered_is_join(text: Seq<char>)
    ensures
        filtered_transcript(text) == join_lines(kept_lines(lines(text))),
        filtered_transcript(text).len() == 0 <==> kept_lines(lines(text)).len() == 0,
        forall|k: int|
            0 <= k < kept_lines(lines(text)).len() ==> (#[trigger] kept_lines(lines(text))[k]).len()
                > 0,
{
    let parts = kept_lines(lines(text));
    lemma_kept_lines_edges(lines(text));
    if parts.len() > 0 {
        lemma_join_edges(parts);
    }
    lemma_trim_fixed(join_lines(parts));
}

proof fn lemma_join_concat(xs: Seq<Seq<char>>, ys: Seq<Seq<char>>)
    requires
        xs.len() > 0,
        ys.len() > 0,
    ensures
        join_lines(xs + ys) == join_lines(xs) + seq!['\n'] + join_lines(ys),
    decreases ys.len(),
{
    if ys.len() == 1 {
        assert((xs + ys).drop_last() =~= xs);
        assert((xs + ys).last() == ys[0]);
    } else {
        let y0 = ys.drop_last();
        lemma_join_concat(xs, y0);
        assert((xs + ys).drop_last() =~= xs + y0);
        assert((xs + ys).last() == ys.last());
    }
}

/// Filtering a text made of two parts joined by a line feed gives the
/// two parts filtered on their own, joined by a line feed when both are
/// nonempty.
pub proof fn lemma_filter_join(a: Seq<char>, b: Seq<char>)
    ensures
        filtered_transcript(a + seq!['\n'] + b) == if filtered_transcript(a).len() == 0 {
            filtered_transcript(b)
        } else if filtered_transcript(b).len() == 0 {
            filtered_transcript(a)
        } else {
            filtered_transcript(a) + seq!['\n'] + filtered_transcript(b)
        },
{
    let t = a + seq!['\n'] + b;
    lemma_lines_after_newline(a, b);
    let pa = pieces(a, '\n').map_values(|l: Seq<char>| strip_cr(l));
    lemma_kept_lines_concat(pa, lines(b));
    lemma_kept_lines_of_pieces(a);
    lemma_filtered_is_join(a);
    lemma_filtered_is_join(b);
    lemma_filtered_is_join(t);
    let ka = kept_lines(lines(a));
    let kb = kept_lines(lines(b));
    assert(kept_lines(lines(t)) == ka + kb);
    if ka.len() == 0 {
        assert(ka + kb =~= kb);
    } else if kb.len() == 0 {
        assert(ka + kb =~= ka);
    } else {
        lemma_join_concat(ka, kb);
    }
}

proof fn lemma_kept_lines_members(ls: Seq<Seq<char>>)
    ensures
        forall|i: int|
            0 <= i < ls.len() && keep_line(ls[i]) ==> kept_lines(ls).contains(
                trim(#[trigger] ls[i]),
            ),
        forall|j: int|
            0 <= j < kept_lines(ls).len() ==> exists|i: int|
                0 <= i < ls.len() && keep_line(ls[i]) && #[trigger] kept_lines(ls)[j] == trim(
                    #[trigger] ls[i],
                ),
    decreases ls.len(),
{
    if ls.len() > 0 {
        let init = ls.drop_last();
        lemma_kept_lines_members(init);
        let k0 = kept_lines(init);
        let k = kept_lines(ls);
        assert forall|i: int| 0 <= i < ls.len() && keep_line(ls[i]) implies k.contains(
            trim(#[trigger] ls[i]),
        ) by {
            if i < init.len() {
                assert(init[i] == ls[i]);
                assert(k0.contains(trim(init[i])));
                let w = choose|w: int| 0 <= w < k0.len() && k0[w] == trim(init[i]);
                assert(k[w] == k0[w]);
            } else {
                assert(k.last() == trim(ls[i]));
            }
        }
        assert forall|j: int| 0 <= j < kept_lines(ls).len() implies exists|i: int|
            0 <= i < ls.len() && keep_line(ls[i]) && #[trigger] kept_lines(ls)[j] == trim(
                #[trigger] ls[i],
            ) by {
            if j < k0.len() {
                assert(k[j] == k0[j]);
                let i = choose|i: int|
                    0 <= i < init.len() && keep_line(init[i]) && #[trigger] k0[j] == trim(
                        #[trigger] init[i],
                    );
                assert(init[i] == ls[i]);
                assert(k[j] == trim(ls[i]));
                assert(0 <= i < ls.len() && keep_line(ls[i]) && k[j] == trim(ls[i]));
            } else {
                let i = ls.len() - 1;
                assert(ls[i] == ls.last());
                assert(keep_line(ls.last()));
                assert(k[j] == trim(ls[i]));
                assert(0 <= i < ls.len() && keep_line(ls[i]) && k[j] == trim(ls[i]));
            }
        }
    } else {
        assert(kept_lines(ls).len() == 0);
    }
}

/// Filtering keeps exactly the lines that do not start with `[` and are
/// not blank: each such input line appears, trimmed, as a line of the
/// result, and every line of the result is such an input line, trimmed.
pub proof fn lemma_filter_keeps_exactly(text: Seq<char>)
    ensures
        forall|i: int|
            0 <= i < lines(text).len() && !(lines(text)[i].len() > 0 && lines(text)[i][0] == '[')
                && trim(lines(text)[i]).len() > 0 ==> lines(filtered_transcript(text)).contains(
                trim(#[trigger] lines(text)[i]),
            ),
        forall|j: int|
            0 <= j < lines(filtered_transcript(text)).len() ==> exists|i: int|
                0 <= i < lines(text).len() && !(lines(text)[i].len() > 0 && lines(text)[i][0]
                    == '[') && trim(lines(text)[i]).len() > 0 && #[trigger] lines(
                    filtered_transcript(text),
                )[j] == trim(#[trigger] lines(text)[i]),
{
    lemma_filtered_lines(text);
    let ls = lines(text);
    lemma_kept_lines_members(ls);
    let out = lines(filtered_transcript(text));
    assert forall|j: int| 0 <= j < out.len() implies exists|i: int|
        0 <= i < ls.len() && !(ls[i].len() > 0 && ls[i][0] == '[') && trim(ls[i]).len() > 0
            && #[trigger] out[j] == trim(#[trigger] ls[i]) by {
        let i = choose|i: int|
            0 <= i < ls.len() && keep_line(ls[i]) && #[trigger] kept_lines(ls)[j] == trim(
                #[trigger] ls[i],
            );
        assert(out[j] == trim(ls[i]));
    }
}

/// Hides the timestamp lines of a transcript: drops every line that
/// starts with `[` or is blank, trims the others and joins them with
/// line feeds.
pub fn filter_timestamps(text: &str) -> (r: String)
    ensures
        r@ == filtered_transcript(text@),
{
    let c = chars_of(text);
    let b = line_bounds(&c);
    let ghost ls = lines(c@);
    let mut out = String::new();
    let mut any = false;
    let mut k: usize = 0;
    while k < b.len()
        invariant
            k <= b.len(),
            b.len() == ls.len(),
            ls == lines(c@),
            forall|j: int|
                0 <= j < b.len() ==> {
                    &&& (#[trigger] b[j]).0 <= b[j].1 <= c.len()
                    &&& c@.subrange(b[j].0 as int, b[j].1 as int) == ls[j]
                },
            out@ == join_lines(kept_lines(ls.take(k as int))),
            any == (kept_lines(ls.take(k as int)).len() > 0),
        decreases b.len() - k,
    {
        let (lo, hi) = b[k];
        let ghost l = ls[k as int];
        assert(ls.take(k + 1).drop_last() =~= ls.take(k as int));
        assert(ls.take(k + 1).last() == l);
        let bracket = hi > lo && c[lo] == '[';
        assert(bracket == (l.len() > 0 && l[0] == '['));
        let (a, z) = trim_bounds(&c, lo, hi);
        if !bracket && a < z {
            proof {
                lemma_join_push(kept_lines(ls.take(k as int)), trim(l));
            }
            if any {
                push_char(&mut out, '\n');
            }
            push_range(&mut out, &c, a, z);
            any = true;
        }
        k = k + 1;
    }
    proof {
        assert(ls.take(ls.len() as int) =~= ls);
        let parts = kept_lines(ls);
        lemma_kept_lines_edges(ls);
        if parts.len() > 0 {
            lemma_join_edges(parts);
        }
        lemma_trim_fixed(join_lines(parts));
    }
    out
}


/// The dialog title and warning flag for an error message that has
/// already been lowercased.
pub open spec fn error_class(msg: Seq<char>) -> (Seq<char>, bool) {
    if occurs_in("not supported"@, msg) || occurs_in("unsupported"@, msg) || occurs_in(
        "no audio track"@,
        msg,
    ) || occurs_in("format probe"@, msg) || occurs_in("bits_per_sample"@, msg) {
        ("Unsupported Format"@, true)
    } else if occurs_in("failed to download"@, msg) || occurs_in("internet"@, msg) || occurs_in(
        "connection"@,
        msg,
    ) {
        ("Network Error"@, false)
    } else if occurs_in("no audio samples"@, msg) || occurs_in("empty"@, msg) || occurs_in(
        "too short"@,
        msg,
    ) {
        ("Empty Audio"@, true)
    } else if occurs_in("whisper failed"@, msg) || occurs_in("failed to run"@, msg) || occurs_in(
        "not found"@,
        msg,
    ) {
        ("Whisper Error"@, false)
    } else {
        ("Error"@, false)
    }
}

/// How an error message (already in lowercase) is classified, by the
/// words it mentions, earlier classes taking precedence: a format
/// problem, then a network problem, then empty audio, then a failure of
/// whisper.cpp; a message that mentions none of these is a plain error.
pub proof fn lemma_error_classes(msg: Seq<char>)
    ensures
        occurs_in("not supported"@, msg) || occurs_in("unsupported"@, msg) || occurs_in(
            "no audio track"@,
            msg,
        ) || occurs_in("format probe"@, msg) || occurs_in("bits_per_sample"@, msg)
            ==> error_class(msg) == ("Unsupported Format"@, true),
        !(occurs_in("not supported"@, msg) || occurs_in("unsupported"@, msg) || occurs_in(
            "no audio track"@,
            msg,
        ) || occurs_in("format probe"@, msg) || occurs_in("bits_per_sample"@, msg)) && (occurs_in(
            "failed to download"@,
            msg,
        ) || occurs_in("internet"@, msg) || occurs_in("connection"@, msg)) ==> error_class(msg)
            == ("Network Error"@, false),
        !(occurs_in("not supported"@, msg) || occurs_in("unsupported"@, msg) || occurs_in(
            "no audio track"@,
            msg,
        ) || occurs_in("format probe"@, msg) || occurs_in("bits_per_sample"@, msg)) && !(
        occurs_in("failed to download"@, msg) || occurs_in("internet"@, msg) || occurs_in(
            "connection"@,
            msg,
        )) && (occurs_in("no audio samples"@, msg) || occurs_in("empty"@, msg) || occurs_in(
            "too short"@,
            msg,
        )) ==> error_class(msg) == ("Empty Audio"@, true),
        !(occurs_in("not supported"@, msg) || occurs_in("unsupported"@, msg) || occurs_in(
            "no audio track"@,
            msg,
        ) || occurs_in("format probe"@, msg) || occurs_in("bits_per_sample"@, msg)) && !(
        occurs_in("failed to download"@, msg) || occurs_in("internet"@, msg) || occurs_in(
            "connection"@,
            msg,
        )) && !(occurs_in("no audio samples"@, msg) || occurs_in("empty"@, msg) || occurs_in(
            "too short"@,
            msg,
        )) && (occurs_in("whisper failed"@, msg) || occurs_in("failed to run"@, msg) || occurs_in(
            "not found"@,
            msg,
        )) ==> error_class(msg) == ("Whisper Error"@, false),
        !(occurs_in("not supported"@, msg) || occurs_in("unsupported"@, msg) || occurs_in(
            "no audio track"@,
            msg,
        ) || occurs_in("format probe"@, msg) || occurs_in("bits_per_sample"@, msg)) && !(
        occurs_in("failed to download"@, msg) || occurs_in("internet"@, msg) || occurs_in(
            "connection"@,
            msg,
        )) && !(occurs_in("no audio samples"@, msg) || occurs_in("empty"@, msg) || occurs_in(
            "too short"@,
            msg,
        )) && !(occurs_in("whisper failed"@, msg) || occurs_in("failed to run"@, msg) || occurs_in(
            "not found"@,
            msg,
        )) ==> error_class(msg) == ("Error"@, false),
{
}

/// An error is shown as a warning exactly when it is classified as an
/// unsupported format or as empty audio.
pub proof fn lemma_warning_classes(msg: Seq<char>)
    ensures
        error_class(msg).1 <==> (error_class(msg).0 == "Unsupported Format"@ || error_class(
            msg,
        ).0 == "Empty Audio"@),
{
    reveal_strlit("Unsupported Format");
    reveal_strlit("Network Error");
    reveal_strlit("Empty Audio");
    reveal_strlit("Whisper Error");
    reveal_strlit("Error");
    assert("Unsupported Format"@.len() == 18);
    assert("Empty Audio"@.len() == 11);
    assert("Network Error"@.len() == 13);
    assert("Whisper Error"@.len() == 13);
    assert("Error"@.len() == 5);
}

/// Classifies an error message that is already in lowercase: the title
/// of the dialog that reports it, and whether it is shown as a warning.
pub fn classify_lowered(msg: &str) -> (r: (&'static str, bool))
    ensures
        (r.0@, r.1) == error_class(msg@),
{
    if contains(msg, "not supported") || contains(msg, "unsupported") || contains(
        msg,
        "no audio track",
    ) || contains(msg, "format probe") || contains(msg, "bits_per_sample") {
        ("Unsupported Format", true)
    } else if contains(msg, "failed to download") || contains(msg, "internet") || contains(
        msg,
        "connection",
    ) {
        ("Network Error", false)
    } else if contains(msg, "no audio samples") || contains(msg, "empty") || contains(
        msg,
        "too short",
    ) {
        ("Empty Audio", true)
    } else if contains(msg, "whisper failed") || contains(msg, "failed to run") || contains(
        msg,
        "not found",
    ) {
        ("Whisper Error", false)
    } else {
        ("Error", false)
    }
}

/// Classifies an error message for the error dialog: its title and
/// whether it is shown as a warning. The message is matched in lowercase.
pub fn classify_error(message: &str) -> (r: (&'static str, bool))
    ensures
        (r.0@, r.1) == error_class(lowercase(message@)),
{
    let msg = to_lowercase(message);
    classify_lowered(msg.as_str())
}

} // verus!
