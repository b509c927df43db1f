//! Spoken-request handling: what an interpreted voice command does to the
//! list.  Transcription and interpretation are outside collaborators; the
//! decisions they feed are made and verified here.

use vstd::prelude::*;

use crate::items::{delete_many_model, Item, ItemStore, ItemView};
use crate::messages;
use crate::strutil::strip_quantity_spec;
use crate::textparse::{capitalize_first, clean_item_lines, clean_items_spec, first_grapheme,
    lower_of, upper_of};
use crate::types::ChatKey;

verus! {

broadcast use vstd::seq_lib::group_seq_lib_default;

/// An interpreted voice request: add these items, or delete these items.
#[derive(Debug, PartialEq)]
pub enum VoiceCommand {
    Add(Vec<String>),
    Delete(Vec<String>),
}

/// Build the command from the interpreter's answer: a deletion when it
/// named items to delete, otherwise an addition (the default when unsure);
/// either way the named items are cleaned and empty ones dropped.
pub fn voice_command_from_parts(
    add: Option<Vec<String>>,
    delete: Option<Vec<String>>,
) -> (r: VoiceCommand)
    ensures
        match delete {
            Some(d) => r matches VoiceCommand::Delete(v) && v.deep_view() == clean_items_spec(
                d.deep_view(),
            ),
            None => match add {
                Some(a) => r matches VoiceCommand::Add(v) && v.deep_view() == clean_items_spec(
                    a.deep_view(),
                ),
                None => r matches VoiceCommand::Add(v) && v.deep_view() == Seq::<
                    Seq<char>,
                >::empty(),
            },
        },
{
    match delete {
        Some(d) => VoiceCommand::Delete(clean_item_lines(&d)),
        None => match add {
            Some(a) => VoiceCommand::Add(clean_item_lines(&a)),
            None => {
                let v: Vec<String> = Vec::new();
                proof {
                    assert(v.deep_view() =~= Seq::<Seq<char>>::empty());
                }
                VoiceCommand::Add(v)
            },
        },
    }
}

/// The capitalized form of an item text.
pub open spec fn capitalized(t: Seq<char>) -> Seq<char> {
    if t.len() == 0 {
        Seq::empty()
    } else {
        upper_of(first_grapheme(t)) + t.skip(first_grapheme(t).len() as int)
    }
}

/// Capitalize every item text.
pub fn capitalize_all(items: &Vec<String>) -> (r: Vec<String>)
    ensures
        r.deep_view() == items.deep_view().map_values(|t: Seq<char>| capitalized(t)),
{
    let ghost all = items.deep_view();
    let mut out: Vec<String> = Vec::new();
    let mut i: usize = 0;
    proof {
        assert(out.deep_view() =~= all.take(0).map_values(|t: Seq<char>| capitalized(t)));
    }
    while i < items.len()
        invariant
            0 <= i <= items@.len(),
            items.deep_view() == all,
            out.deep_view() == all.take(i as int).map_values(|t: Seq<char>| capitalized(t)),
        decreases items@.len() - i,
    {
        let ghost prev = out.deep_view();
        let c = capitalize_first(items[i].as_str());
        proof {
            assert(items@[i as int]@ == all[i as int]);
            assert(c@ == capitalized(all[i as int]));
        }
        out.push(c);
        proof {
            assert(out.deep_view() =~= prev.push(c@));
            assert(all.take(i + 1) =~= all.take(i as int).push(all[i as int]));
            assert(out.deep_view() =~= all.take(i + 1).map_values(
                |t: Seq<char>| capitalized(t),
            ));
        }
        i = i + 1;
    }
    proof {
        assert(all.take(all.len() as int) =~= all);
    }
    out
}

/// The normalized form an item is matched under.
pub open spec fn norm_of(t: Seq<char>) -> Seq<char> {
    lower_of(strip_quantity_spec(t))
}

/// The first entry whose normalized text matches, or the length if none.
pub open spec fn find_norm(cur: Seq<ItemView>, w: Seq<char>) -> int
    decreases cur.len(),
{
    if cur.len() == 0 {
        0
    } else if norm_of(cur[0].text) == norm_of(w) {
        0
    } else {
        1 + find_norm(cur.skip(1), w)
    }
}

proof fn lemma_find_norm_props(cur: Seq<ItemView>, w: Seq<char>)
    ensures
        0 <= find_norm(cur, w) <= cur.len(),
        find_norm(cur, w) < cur.len() ==> norm_of(cur[find_norm(cur, w)].text) == norm_of(w),
        forall|j: int| 0 <= j < find_norm(cur, w) ==> norm_of(cur[j].text) != norm_of(w),
    decreases cur.len(),
{
    if cur.len() > 0 && norm_of(cur[0].text) != norm_of(w) {
        let t = cur.skip(1);
        lemma_find_norm_props(t, w);
        assert(forall|j: int| 1 <= j < find_norm(cur, w) ==> cur[j] == t[j - 1]);
    }
}

proof fn lemma_find_norm_at(cur: Seq<ItemView>, w: Seq<char>, i: int)
    requires
        0 <= i <= cur.len(),
        forall|j: int| 0 <= j < i ==> norm_of(cur[j].text) != norm_of(w),
        i == cur.len() || norm_of(cur[i].text) == norm_of(w),
    ensures
        find_norm(cur, w) == i,
    decreases i,
{
    if i == 0 {
        if cur.len() > 0 {
            lemma_find_norm_props(cur, w);
        }
    } else {
        let t = cur.skip(1);
        assert(forall|j: int| 0 <= j < i - 1 ==> t[j] == cur[j + 1]);
        lemma_find_norm_at(t, w, i - 1);
    }
}

/// The result of matching spoken deletion requests against the list.
pub ghost struct MatchResult {
    /// The entries left after the matches are taken out.
    pub remaining: Seq<ItemView>,
    /// The matched entries, in request order.
    pub removed: Seq<ItemView>,
}

/// Matching consumes the requests front to back; each takes the first
/// entry whose normalized text equals the request's, if any is left.
pub open spec fn match_many(cur: Seq<ItemView>, wanted: Seq<Seq<char>>) -> MatchResult
    decreases wanted.len(),
{
    if wanted.len() == 0 {
        MatchResult { remaining: cur, removed: Seq::empty() }
    } else {
        let f = find_norm(cur, wanted[0]);
        if f < cur.len() {
            let rest = match_many(cur.remove(f), wanted.skip(1));
            MatchResult { remaining: rest.remaining, removed: seq![cur[f]] + rest.removed }
        } else {
            match_many(cur, wanted.skip(1))
        }
    }
}

/// Delete the spoken items: each request removes the first entry of the
/// list whose normalized text matches it; the removed entries leave the
/// store (scoped to `chat`) and their texts are reported back.
pub fn delete_matching_items(
    store: &mut ItemStore,
    chat: ChatKey,
    current: &mut Vec<Item>,
    wanted: &Vec<String>,
) -> (r: Vec<String>)
    requires
        old(store).wf(),
    ensures
        final(store).wf(),
        final(current)@.map_values(|it: Item| it@) == match_many(
            old(current)@.map_values(|it: Item| it@),
            wanted.deep_view(),
        ).remaining,
        r.deep_view() == match_many(
            old(current)@.map_values(|it: Item| it@),
            wanted.deep_view(),
        ).removed.map_values(|it: ItemView| it.text),
        final(store)@ == delete_many_model(
            old(store)@,
            chat.0 as int,
            match_many(
                old(current)@.map_values(|it: Item| it@),
                wanted.deep_view(),
            ).removed.map_values(|it: ItemView| it.id),
        ),
{
    let ghost orig = old(current)@.map_values(|it: Item| it@);
    let ghost ws = wanted.deep_view();
    let ghost goal = match_many(orig, ws);
    let mut removed_texts: Vec<String> = Vec::new();
    let mut removed_ids: Vec<crate::types::ItemId> = Vec::new();
    let ghost mut removed_views: Seq<ItemView> = Seq::empty();
    let mut k: usize = 0;
    proof {
        assert(ws.skip(0) =~= ws);
        assert(removed_texts.deep_view() =~= removed_views.map_values(|it: ItemView| it.text));
        assert(removed_ids@.map_values(|v: crate::types::ItemId| v.0 as int)
            =~= removed_views.map_values(|it: ItemView| it.id));
        assert(removed_views + goal.removed =~= goal.removed);
    }
    while k < wanted.len()
        invariant
            0 <= k <= ws.len(),
            store == old(store),
            wanted.deep_view() == ws,
            goal == match_many(orig, ws),
            match_many(current@.map_values(|it: Item| it@), ws.skip(k as int)).remaining
                == goal.remaining,
            goal.removed == removed_views + match_many(
                current@.map_values(|it: Item| it@),
                ws.skip(k as int),
            ).removed,
            removed_texts.deep_view() == removed_views.map_values(|it: ItemView| it.text),
            removed_ids@.map_values(|v: crate::types::ItemId| v.0 as int)
                == removed_views.map_values(|it: ItemView| it.id),
        decreases ws.len() - k,
    {
        let w_norm = crate::textparse::normalize_for_match(wanted[k].as_str());
        let ghost cur_views = current@.map_values(|it: Item| it@);
        proof {
            assert(wanted@[k as int]@ == ws[k as int]);
        }
        let mut pos: usize = 0;
        let mut found = false;
        while pos < current.len() && !found
            invariant
                0 <= pos <= current@.len(),
                cur_views == current@.map_values(|it: Item| it@),
                0 <= k < ws.len(),
                w_norm@ == norm_of(ws[k as int]),
                !found ==> forall|j: int|
                    0 <= j < pos ==> norm_of(cur_views[j].text) != norm_of(ws[k as int]),
                found ==> pos < cur_views.len() && norm_of(cur_views[pos as int].text)
                    == norm_of(ws[k as int]) && forall|j: int|
                    0 <= j < pos ==> norm_of(cur_views[j].text) != norm_of(ws[k as int]),
            decreases current@.len() - pos + (if found {
                0int
            } else {
                1int
            }),
        {
            let it_norm = crate::textparse::normalize_for_match(current[pos].text.as_str());
            if crate::strutil::str_eq(it_norm.as_str(), w_norm.as_str()) {
                found = true;
                proof {
                    assert(cur_views[pos as int].text == current@[pos as int]@.text);
                }
            } else {
                pos = pos + 1;
            }
        }
        proof {
            if found {
                lemma_find_norm_at(cur_views, ws[k as int], pos as int);
            } else {
                lemma_find_norm_at(cur_views, ws[k as int], cur_views.len() as int);
            }
            assert(ws.skip(k as int)[0] == ws[k as int]);
            assert(ws.skip(k as int).skip(1) =~= ws.skip(k + 1));
        }
        if found {
            let ghost prev_texts = removed_texts.deep_view();
            let ghost prev_ids = removed_ids@;
            let ghost prev_views = removed_views;
            let taken = current.remove(pos);
            removed_ids.push(taken.id);
            removed_texts.push(taken.text);
            proof {
                removed_views = prev_views.push(cur_views[pos as int]);
                let rest = match_many(cur_views.remove(pos as int), ws.skip(k + 1));
                let step = match_many(cur_views, ws.skip(k as int));
                assert(step.remaining == rest.remaining);
                assert(step.removed == seq![cur_views[pos as int]] + rest.removed);
                assert(current@.map_values(|it: Item| it@) =~= cur_views.remove(pos as int));
                assert(taken@ == cur_views[pos as int]);
                assert(prev_views + (seq![cur_views[pos as int]] + rest.removed)
                    =~= removed_views + rest.removed);
                assert(goal.removed == removed_views + rest.removed);
                assert(removed_texts.deep_view() =~= prev_texts.push(taken@.text));
                assert(removed_texts.deep_view() =~= removed_views.map_values(
                    |it: ItemView| it.text,
                ));
                assert(removed_ids@.map_values(|v: crate::types::ItemId| v.0 as int)
                    =~= prev_ids.map_values(|v: crate::types::ItemId| v.0 as int).push(
                    taken@.id,
                ));
                assert(removed_ids@.map_values(|v: crate::types::ItemId| v.0 as int)
                    =~= removed_views.map_values(|it: ItemView| it.id));
            }
        } else {
            proof {
                assert(match_many(cur_views, ws.skip(k as int)) == match_many(
                    cur_views,
                    ws.skip(k + 1),
                ));
            }
        }
        k = k + 1;
    }
    proof {
        assert(ws.skip(ws.len() as int) =~= Seq::<Seq<char>>::empty());
        let tail = match_many(current@.map_values(|it: Item| it@), ws.skip(ws.len() as int));
        assert(tail.removed =~= Seq::<ItemView>::empty());
        assert(removed_views + tail.removed =~= removed_views);
        assert(removed_views == goal.removed);
        assert(removed_ids@.map_values(|v: crate::types::ItemId| v.0 as int) =~= goal.removed.map_values(
            |it: ItemView| it.id,
        ));
    }
    let _ = store.delete_items(chat, &removed_ids);
    removed_texts
}


/// The lines of the removal notice: one bullet per removed text.
pub open spec fn bullet_lines(texts: Seq<Seq<char>>) -> Seq<char>
    decreases texts.len(),
{
    if texts.len() == 0 {
        Seq::empty()
    } else if texts.len() == 1 {
        "• "@ + texts[0]
    } else {
        "• "@ + texts[0] + "\n"@ + bullet_lines(texts.skip(1))
    }
}

/// The notice posted after a spoken deletion: the removal header, then
/// each removed item as a bullet line.
pub fn voice_removed_text(deleted: &Vec<String>) -> (r: String)
    ensures
        r@ == messages::VOICE_REMOVED_PREFIX@ + bullet_lines(deleted.deep_view()),
{
    let ghost all = deleted.deep_view();
    let mut s = String::new();
    s.append(messages::VOICE_REMOVED_PREFIX);
    let mut i: usize = 0;
    proof {
        assert(bullet_lines(all.take(0)) =~= Seq::<char>::empty());
        assert(s@ =~= messages::VOICE_REMOVED_PREFIX@ + bullet_lines(all.take(0)));
    }
    while i < deleted.len()
        invariant
            0 <= i <= deleted@.len(),
            deleted.deep_view() == all,
            s@ == messages::VOICE_REMOVED_PREFIX@ + bullet_lines(all.take(i as int)),
        decreases deleted@.len() - i,
    {
        if i > 0 {
            s.append("\n");
        }
        s.append("• ");
        s.append(deleted[i].as_str());
        proof {
            assert(deleted@[i as int]@ == all[i as int]);
            assert(all.take(i + 1) =~= all.take(i as int).push(all[i as int]));
            lemma_bullet_push(all.take(i as int), all[i as int]);
            assert(s@ =~= messages::VOICE_REMOVED_PREFIX@ + bullet_lines(all.take(i + 1)));
        }
        i = i + 1;
    }
    proof {
        assert(all.take(all.len() as int) =~= all);
    }
    s
}

/// Appending a text extends the bullet block by a newline and a bullet.
proof fn lemma_bullet_push(texts: Seq<Seq<char>>, t: Seq<char>)
    ensures
        bullet_lines(texts.push(t)) == if texts.len() == 0 {
            "• "@ + t
        } else {
            bullet_lines(texts) + "\n"@ + "• "@ + t
        },
    decreases texts.len(),
{
    let w = texts.push(t);
    if texts.len() == 0 {
        assert(w.len() == 1);
        assert(w[0] == t);
    } else {
        assert(w.skip(1) =~= texts.skip(1).push(t));
        lemma_bullet_push(texts.skip(1), t);
        if texts.len() == 1 {
            assert(bullet_lines(w) == "• "@ + w[0] + "\n"@ + bullet_lines(w.skip(1)));
            assert(bullet_lines(w.skip(1)) == "• "@ + t);
            assert(bullet_lines(texts) == "• "@ + texts[0]);
            assert(bullet_lines(w) =~= bullet_lines(texts) + "\n"@ + "• "@ + t);
        } else {
            assert(bullet_lines(w) == "• "@ + w[0] + "\n"@ + bullet_lines(w.skip(1)));
            assert(bullet_lines(w) =~= bullet_lines(texts) + "\n"@ + "• "@ + t);
        }
    }
}

} // verus!
