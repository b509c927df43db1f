//! Turning free-form message text into clean item strings.
//!
//! A line is cleaned of status markers and whitespace, archival separators
//! and removal headers are dropped, and transcribed or typed text is split
//! at commas, newlines and the word "and".

use vstd::prelude::*;

use crate::messages;
use crate::strutil;

verus! {

broadcast use vstd::seq_lib::group_seq_lib_default, Seq::lemma_flatten_push;

/// What `str::to_lowercase` returns: a function of the characters alone.
pub uninterp spec fn lower_of(s: Seq<char>) -> Seq<char>;

/// What `str::to_uppercase` returns: a function of the characters alone.
pub uninterp spec fn upper_of(s: Seq<char>) -> Seq<char>;

/// The first extended grapheme cluster of a string, as unicode-segmentation
/// determines it.
pub uninterp spec fn first_grapheme(s: Seq<char>) -> Seq<char>;

/// Relies on `str::to_lowercase`: the result depends on the input
/// characters alone, and an empty string stays empty.
#[verifier::external_body]
fn to_lowercase_str(s: &str) -> (r: String)
    ensures
        r@ == lower_of(s@),
        s@.len() == 0 ==> r@.len() == 0,
{
    s.to_lowercase()
}

/// Relies on `str::to_uppercase`: the result depends on the input
/// characters alone, and an empty string stays empty.
#[verifier::external_body]
fn to_uppercase_str(s: &str) -> (r: String)
    ensures
        r@ == upper_of(s@),
        s@.len() == 0 ==> r@.len() == 0,
{
    s.to_uppercase()
}

/// Relies on unicode-segmentation's `graphemes`: the first grapheme cluster
/// of a non-empty string is a non-empty prefix of it, and the rest of the
/// iterator is the remainder of the string.
#[verifier::external_body]
fn split_first_grapheme(s: &str) -> (r: Option<(String, String)>)
    ensures
        r is Some <==> s@.len() > 0,
        match r {
            Some(parts) => parts.0@ == first_grapheme(s@) && parts.0@.len() >= 1 && s@ == parts.0@
                + parts.1@,
            None => true,
        },
{
    let mut it = unicode_segmentation::UnicodeSegmentation::graphemes(s, true);
    match it.next() {
        Some(g) => Some((g.to_string(), it.as_str().to_string())),
        None => None,
    }
}

/// The anyhow error type, carried through from a fallible collaborator; the
/// fallback logic only needs to tell success from failure.
#[verifier::external_type_specification]
#[verifier::external_body]
pub struct ExAnyhowError(anyhow::Error);

/// Uppercase the first grapheme cluster and keep the rest unchanged.
pub fn capitalize_first(text: &str) -> (r: String)
    ensures
        text@.len() == 0 ==> r@ == Seq::<char>::empty(),
        text@.len() > 0 ==> r@ == upper_of(first_grapheme(text@)) + text@.skip(
            first_grapheme(text@).len() as int,
        ),
{
    match split_first_grapheme(text) {
        None => String::new(),
        Some(parts) => {
            let (first, rest) = parts;
            let mut out = to_uppercase_str(first.as_str());
            out.append(rest.as_str());
            proof {
                assert(rest@ =~= text@.skip(first@.len() as int));
            }
            out
        },
    }
}

/// Normalized form used to match spoken item names: leading quantity digits
/// and whitespace removed, the rest lowercased.
pub fn normalize_for_match(text: &str) -> (r: String)
    ensures
        r@ == lower_of(strutil::strip_quantity_spec(text@)),
{
    let stripped = strutil::strip_quantity(text);
    to_lowercase_str(stripped)
}

/// How a single line is cleaned: the archived-list separator and removal
/// headers are dropped, markers and whitespace are stripped, and a line
/// with nothing left is dropped too.
pub open spec fn parse_item_line_spec(l: Seq<char>) -> Option<Seq<char>> {
    if strutil::trim_spec(l) == messages::ARCHIVED_LIST_HEADER@ {
        None
    } else {
        let cleaned = strutil::clean_line_spec(l);
        if strutil::starts_with_spec(cleaned, "Removed via voice request"@) {
            None
        } else if cleaned.len() == 0 {
            None
        } else {
            Some(cleaned)
        }
    }
}

/// Clean a single text line from a user message.
///
/// Returns `None` if the line should be ignored (for example it is the
/// archived list separator or becomes empty after trimming).  Otherwise
/// returns the cleaned line without leading status markers or whitespace.
pub fn parse_item_line(line: &str) -> (r: Option<String>)
    ensures
        match r {
            Some(t) => parse_item_line_spec(line@) == Some(t@),
            None => parse_item_line_spec(line@) is None,
        },
{
    let trimmed = strutil::trim_ws(line);
    if strutil::str_eq(trimmed, messages::ARCHIVED_LIST_HEADER) {
        return None;
    }
    let cleaned = strutil::clean_line(line);
    if strutil::starts_with(cleaned, "Removed via voice request") {
        return None;
    }
    if cleaned.unicode_len() == 0 {
        return None;
    }
    Some(cleaned.to_owned())
}

/// The cleaned items of one comma- or newline-separated segment, after
/// splitting it at the word "and".
pub open spec fn cleaned_of(t: Seq<char>) -> Seq<Seq<char>> {
    strutil::split_sub(t, " and "@).filter_map(|u: Seq<char>| parse_item_line_spec(u))
}

/// The items of a free-form text: split at commas and newlines, then at the
/// word "and", each piece cleaned, empty pieces dropped.
pub open spec fn parse_items_spec(s: Seq<char>) -> Seq<Seq<char>> {
    strutil::split_by(s, |c: char| c == ',' || c == '\n').map_values(
        |t: Seq<char>| cleaned_of(t),
    ).flatten()
}

/// Split a text string into individual items.
///
/// The input is split on commas, newlines and the word "and".  Each segment
/// is then cleaned via [`parse_item_line`].  Empty segments are ignored.
pub fn parse_items(text: &str) -> (r: Vec<String>)
    ensures
        r.deep_view() == parse_items_spec(text@),
{
    proof {
        reveal_strlit(" and ");
    }
    let ghost sep = |c: char| c == ',' || c == '\n';
    let pieces = split_pieces(text);
    let ghost pseq = strutil::split_by(text@, sep);
    let mut out: Vec<String> = Vec::new();
    let mut i: usize = 0;
    proof {
        assert(pseq.take(0).map_values(|t: Seq<char>| cleaned_of(t)).flatten() =~= Seq::<
            Seq<char>,
        >::empty());
        assert(out.deep_view() =~= Seq::<Seq<char>>::empty());
    }
    while i < pieces.len()
        invariant
            0 <= i <= pieces.len(),
            (" and "@).len() == 5,
            pieces.deep_view() == pseq,
            out.deep_view() == pseq.take(i as int).map_values(
                |t: Seq<char>| cleaned_of(t),
            ).flatten(),
        decreases pieces.len() - i,
    {
        let subs = strutil::split_at_sub(pieces[i].as_str(), " and ");
        let ghost sseq = strutil::split_sub(pieces@[i as int]@, " and "@);
        let ghost before = out.deep_view();
        let mut j: usize = 0;
        proof {
            assert(pieces@[i as int]@ == pseq[i as int]);
            assert(sseq.take(0).filter_map(|u: Seq<char>| parse_item_line_spec(u)) =~= Seq::<
                Seq<char>,
            >::empty());
            assert(before + Seq::<Seq<char>>::empty() =~= before);
        }
        while j < subs.len()
            invariant
                0 <= j <= subs.len(),
                (" and "@).len() == 5,
                subs.deep_view() == sseq,
                out.deep_view() == before + sseq.take(j as int).filter_map(
                    |u: Seq<char>| parse_item_line_spec(u),
                ),
            decreases subs.len() - j,
        {
            let ghost prev = out.deep_view();
            match parse_item_line(subs[j].as_str()) {
                Some(t) => {
                    out.push(t);
                    proof {
                        assert(out.deep_view() =~= prev.push(
                            parse_item_line_spec(sseq[j as int]).unwrap(),
                        ));
                    }
                },
                None => {},
            }
            proof {
                let f = |u: Seq<char>| parse_item_line_spec(u);
                sseq.lemma_filter_map_take_succ(f, j as int);
                assert(subs@[j as int]@ == sseq[j as int]);
                assert(out.deep_view() =~= before + sseq.take(j + 1).filter_map(f));
            }
            j = j + 1;
        }
        proof {
            let f = |t: Seq<char>| cleaned_of(t);
            assert(sseq.take(sseq.len() as int) =~= sseq);
            assert(cleaned_of(pseq[i as int]) == sseq.filter_map(
                |u: Seq<char>| parse_item_line_spec(u),
            ));
            assert(pseq.take(i + 1).map_values(f) =~= pseq.take(i as int).map_values(f).push(
                f(pseq[i as int]),
            ));
            assert(out.deep_view() =~= pseq.take(i + 1).map_values(f).flatten());
        }
        i = i + 1;
    }
    proof {
        assert(pseq.take(pseq.len() as int) =~= pseq);
    }
    out
}

/// The comma/newline splitter, with the deep view the item parser needs.
fn split_pieces(text: &str) -> (r: Vec<String>)
    ensures
        r.deep_view() == strutil::split_by(text@, |c: char| c == ',' || c == '\n'),
{
    strutil::split_list_seps(text)
}

/// Legacy wrapper for [`parse_items`] used by older voice code paths.
pub fn parse_voice_items(text: &str) -> (r: Vec<String>)
    ensures
        r.deep_view() == parse_items_spec(text@),
{
    parse_items(text)
}


/// The lines of a message, as `str::lines` sees them: split at newlines,
/// one trailing carriage return stripped from each, a final empty piece
/// (from a trailing newline or an empty text) dropped.
pub open spec fn lines_spec(s: Seq<char>) -> Seq<Seq<char>> {
    let raw = strutil::split_by(s, |c: char| c == '\n');
    let kept = if raw.len() > 0 && raw.last().len() == 0 {
        raw.drop_last()
    } else {
        raw
    };
    kept.map_values(
        |t: Seq<char>| if t.len() > 0 && t.last() == '\r' {
            t.drop_last()
        } else {
            t
        },
    )
}

/// Split a message into its lines.
pub fn split_lines(s: &str) -> (r: Vec<String>)
    ensures
        r.deep_view() == lines_spec(s@),
{
    let ghost raw_spec = strutil::split_by(s@, |c: char| c == '\n');
    let mut raw = strutil::split_newlines(s);
    proof {
        assert(raw_spec.len() > 0) by {
            assert(raw.deep_view().len() == raw@.len());
        }
    }
    let last_len = raw[raw.len() - 1].as_str().unicode_len();
    if last_len == 0 {
        let _ = raw.pop();
        proof {
            assert(raw.deep_view() =~= raw_spec.drop_last());
        }
    }
    let ghost kept = if raw_spec.last().len() == 0 {
        raw_spec.drop_last()
    } else {
        raw_spec
    };
    let ghost strip: spec_fn(Seq<char>) -> Seq<char> = |t: Seq<char>|
        if t.len() > 0 && t.last() == '\r' {
            t.drop_last()
        } else {
            t
        };
    let mut out: Vec<String> = Vec::new();
    let mut i: usize = 0;
    proof {
        assert(out.deep_view() =~= kept.take(0).map_values(strip));
    }
    while i < raw.len()
        invariant
            0 <= i <= raw@.len(),
            raw.deep_view() == kept,
            strip == (|t: Seq<char>|
                if t.len() > 0 && t.last() == '\r' {
                    t.drop_last()
                } else {
                    t
                }),
            out.deep_view() == kept.take(i as int).map_values(strip),
        decreases raw@.len() - i,
    {
        let ghost prev = out.deep_view();
        let piece = raw[i].as_str();
        let n = piece.unicode_len();
        proof {
            assert(raw@[i as int]@ == kept[i as int]);
            assert(piece@ == kept[i as int]);
        }
        let stripped = if n > 0 && piece.get_char(n - 1) == '\r' {
            let sub = piece.substring_char(0, n - 1).to_owned();
            proof {
                assert(piece@.subrange(0, n - 1) =~= piece@.drop_last());
                assert(sub@ == strip(kept[i as int]));
            }
            sub
        } else {
            let copy = raw[i].clone();
            proof {
                assert(copy@ == strip(kept[i as int]));
            }
            copy
        };
        out.push(stripped);
        proof {
            assert(out.deep_view() =~= prev.push(strip(kept[i as int])));
            assert(kept.take(i + 1) =~= kept.take(i as int).push(kept[i as int]));
            assert(out.deep_view() =~= kept.take(i + 1).map_values(strip));
        }
        i = i + 1;
    }
    proof {
        assert(kept.take(kept.len() as int) =~= kept);
    }
    out
}

/// The items a typed message adds: one per line, cleaned, empty lines
/// dropped.
pub fn items_from_text(text: &str) -> (r: Vec<String>)
    ensures
        r.deep_view() == clean_items_spec(lines_spec(text@)),
{
    let lines = split_lines(text);
    clean_item_lines(&lines)
}

/// The cleaned survivors of a list of candidate item strings.
pub open spec fn clean_items_spec(items: Seq<Seq<char>>) -> Seq<Seq<char>> {
    items.filter_map(|u: Seq<char>| parse_item_line_spec(u))
}

/// Clean every candidate string with [`parse_item_line`], dropping the ones
/// that clean to nothing.
pub fn clean_item_lines(items: &Vec<String>) -> (r: Vec<String>)
    ensures
        r.deep_view() == clean_items_spec(items.deep_view()),
{
    let ghost all = items.deep_view();
    let mut out: Vec<String> = Vec::new();
    let mut i: usize = 0;
    proof {
        assert(all.take(0).filter_map(|u: Seq<char>| parse_item_line_spec(u)) =~= Seq::<
            Seq<char>,
        >::empty());
        assert(out.deep_view() =~= Seq::<Seq<char>>::empty());
    }
    while i < items.len()
        invariant
            0 <= i <= items.len(),
            items.deep_view() == all,
            out.deep_view() == all.take(i as int).filter_map(
                |u: Seq<char>| parse_item_line_spec(u),
            ),
        decreases items.len() - i,
    {
        let ghost prev = out.deep_view();
        match parse_item_line(items[i].as_str()) {
            Some(t) => {
                out.push(t);
                proof {
                    assert(out.deep_view() =~= prev.push(
                        parse_item_line_spec(all[i as int]).unwrap(),
                    ));
                }
            },
            None => {},
        }
        proof {
            let f = |u: Seq<char>| parse_item_line_spec(u);
            all.lemma_filter_map_take_succ(f, i as int);
            assert(items@[i as int]@ == all[i as int]);
            assert(out.deep_view() =~= all.take(i + 1).filter_map(f));
        }
        i = i + 1;
    }
    proof {
        assert(all.take(all.len() as int) =~= all);
    }
    out
}

/// Use the collaborator's parse when it succeeded, and fall back to the
/// local splitter on any error.
pub fn parse_items_with_fallback(
    text: &str,
    gpt_result: Result<Vec<String>, anyhow::Error>,
    context: &str,
) -> (r: Vec<String>)
    ensures
        match gpt_result {
            Ok(list) => r.deep_view() == list.deep_view(),
            Err(_) => r.deep_view() == parse_items_spec(text@),
        },
{
    let _ = context;
    match gpt_result {
        Ok(list) => list,
        Err(_) => parse_items(text),
    }
}

} // verus!
