//! Properties of the history operations that span calls: what every
//! operation keeps, and what one call undoes.
use vstd::prelude::*;

use crate::app::{
    cycle_index, cycle_spec, expire_presets, lemma_first_at_least, nav_spec, no_effects, prune_rel, size_presets, update_spec,
    visible_spec, matches_query, query_pred, AppView, MessageView, PopupAction, MAX_RENDER, MAX_UNDO,
};
use crate::clipboard::{ext_spec, str_hash, ImageFormat};
use crate::history::{
    cutoff_spec, display_spec, first_with_id, fnv1a, hash_hex_spec, image_file_spec,
    plain_file_name, ignored, insert_spec, lemma_first_with_id,
    pinned_after, pinned_of, prune_keep, text_entry_view, text_id, toggle_pin_spec, trim_spec,
    unpinned_of, with_pinned, without_id, EntryView, Kind,
};
use crate::text::{hex_digits, lemma_hex_digits_len, lowercase_of, trimmed};

verus! {

broadcast use vstd::seq_lib::group_filter_ensures, vstd::seq::Seq::lemma_filter_push;

/// No two entries share an id.
pub open spec fn ids_unique(s: Seq<EntryView>) -> bool {
    forall|i: int, j: int| 0 <= i < s.len() && 0 <= j < s.len() && i != j ==> s[i].id != s[j].id
}

/// Filtering keeps ids unique.
proof fn lemma_filter_unique(s: Seq<EntryView>, p: spec_fn(EntryView) -> bool)
    requires
        ids_unique(s),
    ensures
        ids_unique(s.filter(p)),
    decreases s.len(),
{
    reveal(Seq::filter);
    if s.len() > 0 {
        let d = s.drop_last();
        assert(ids_unique(d));
        lemma_filter_unique(d, p);
        if p(s.last()) {
            let f = d.filter(p);
            assert forall|k: int| 0 <= k < f.len() implies f[k].id != s.last().id by {
                assert(f.contains(f[k]));
                d.lemma_filter_contains_rev(p, f[k]);
                let m = choose|m: int| 0 <= m < d.len() && d[m] == f[k];
                assert(s[m] == d[m]);
            }
        }
    }
}

/// Re-copying content makes it the newest entry and leaves exactly one entry
/// with its id; the entry keeps the pin of the entry it replaces (its own
/// pin when there was none); and no two entries share an id afterwards if
/// none did before.
pub proof fn law_insert_newest_single_copy(s: Seq<EntryView>, e: EntryView)
    ensures
        insert_spec(s, e).len() >= 1,
        insert_spec(s, e)[0] == with_pinned(e, pinned_after(s, e)),
        forall|i: int| 1 <= i < insert_spec(s, e).len() ==> #[trigger] insert_spec(s, e)[i].id != e.id,
        match first_with_id(s, e.id) {
            Some(k) => insert_spec(s, e)[0].pinned == s[k].pinned,
            None => insert_spec(s, e)[0].pinned == e.pinned,
        },
        ids_unique(s) ==> ids_unique(insert_spec(s, e)),
{
    let r = insert_spec(s, e);
    let w = without_id(s, e.id);
    assert forall|i: int| 1 <= i < r.len() implies #[trigger] r[i].id != e.id by {
        assert(r[i] == w[i - 1]);
    }
    if ids_unique(s) {
        lemma_filter_unique(s, |x: EntryView| x.id != e.id);
        assert forall|i: int, j: int|
            0 <= i < r.len() && 0 <= j < r.len() && i != j implies r[i].id != r[j].id by {
            if i > 0 && j > 0 {
                assert(r[i] == w[i - 1] && r[j] == w[j - 1]);
            } else if i > 0 {
                assert(r[i] == w[i - 1]);
            } else {
                assert(r[j] == w[j - 1]);
            }
        }
    }
}

/// Deleting an entry and restoring it (undo) puts it back as the newest
/// entry, with every other entry where it was.
pub proof fn law_delete_then_restore(s: Seq<EntryView>, id: Seq<char>)
    requires
        ids_unique(s),
        first_with_id(s, id) is Some,
    ensures
        ({
            let i = first_with_id(s, id)->0;
            insert_spec(s.remove(i), s[i]) == seq![s[i]] + s.remove(i)
        }),
{
    lemma_first_with_id(s, id);
    let i = first_with_id(s, id)->0;
    let t = s.remove(i);
    let e = s[i];
    assert forall|j: int| 0 <= j < t.len() implies #[trigger] t[j].id != id by {
        if j < i {
            assert(t[j] == s[j]);
        } else {
            assert(t[j] == s[j + 1]);
        }
    }
    lemma_first_with_id(t, id);
    lemma_filter_all(t, |x: EntryView| x.id != id);
    assert(with_pinned(e, e.pinned) == e);
}

/// A filter that keeps every element is the identity.
proof fn lemma_filter_all(s: Seq<EntryView>, p: spec_fn(EntryView) -> bool)
    requires
        forall|j: int| 0 <= j < s.len() ==> p(#[trigger] s[j]),
    ensures
        s.filter(p) == s,
    decreases s.len(),
{
    reveal(Seq::filter);
    if s.len() > 0 {
        let d = s.drop_last();
        assert forall|j: int| 0 <= j < d.len() implies p(#[trigger] d[j]) by {
            assert(d[j] == s[j]);
        }
        lemma_filter_all(d, p);
        assert(d.push(s.last()) =~= s);
    }
}

/// Clearing keeps exactly the pinned entries, in order: every entry left is
/// pinned, none of the pinned ones is lost, and clearing again changes
/// nothing.
pub proof fn law_clear_keeps_pinned_only(s: Seq<EntryView>)
    ensures
        forall|i: int| 0 <= i < pinned_of(s).len() ==> (#[trigger] pinned_of(s)[i]).pinned,
        forall|i: int| 0 <= i < s.len() && s[i].pinned ==> pinned_of(s).contains(#[trigger] s[i]),
        pinned_of(pinned_of(s)) == pinned_of(s),
{
    let c = pinned_of(s);
    lemma_filter_all(c, |e: EntryView| e.pinned == true);
}

/// Flipping the pin of an id twice restores the history.
pub proof fn law_toggle_pin_twice(s: Seq<EntryView>, id: Seq<char>)
    ensures
        toggle_pin_spec(toggle_pin_spec(s, id), id) == s,
{
    let t = toggle_pin_spec(toggle_pin_spec(s, id), id);
    assert forall|i: int| 0 <= i < s.len() implies #[trigger] t[i] == s[i] by {
        if s[i].id == id {
            assert(with_pinned(with_pinned(s[i], !s[i].pinned), s[i].pinned) == s[i]);
        }
    }
    assert(t =~= s);
}

/// Trimming never drops a pinned entry and keeps the newest `max` unpinned
/// entries (all of them when there are fewer), each group in its order.
pub proof fn law_trim_keeps_pins_and_newest(s: Seq<EntryView>, max: nat)
    ensures
        pinned_of(trim_spec(s, max)) == pinned_of(s),
        unpinned_of(trim_spec(s, max)) == unpinned_of(s).take(
            if unpinned_of(s).len() < max { unpinned_of(s).len() as int } else { max as int },
        ),
        unpinned_of(trim_spec(s, max)).len() <= max,
    decreases s.len(),
{
    reveal(Seq::filter);
    if s.len() == 0 {
        assert(unpinned_of(s).take(0) =~= unpinned_of(s));
    } else {
        let d = s.drop_last();
        let x = s.last();
        law_trim_keeps_pins_and_newest(d, max);
        let ud = unpinned_of(d);
        if x.pinned {
        } else if ud.len() < max {
            assert(ud.take(ud.len() as int) =~= ud);
            assert(ud.push(x).take(ud.len() + 1int) =~= ud.push(x));
        } else {
            assert(ud.push(x).take(max as int) =~= ud.take(max as int));
        }
    }
}

/// Expiry never drops a pinned entry, keeps exactly the entries stamped at
/// or after the cutoff among the unpinned ones, and keeps their order.
pub proof fn law_prune_keeps_pins(s: Seq<EntryView>, cutoff: u64)
    ensures
        pinned_of(prune_keep(s, cutoff)) == pinned_of(s),
        forall|i: int|
            0 <= i < prune_keep(s, cutoff).len() ==> (#[trigger] prune_keep(s, cutoff)[i]).pinned
                || prune_keep(s, cutoff)[i].ts >= cutoff,
        forall|i: int|
            0 <= i < s.len() && (s[i].pinned || s[i].ts >= cutoff) ==> prune_keep(
                s,
                cutoff,
            ).contains(#[trigger] s[i]),
    decreases s.len(),
{
    reveal(Seq::filter);
    if s.len() > 0 {
        law_prune_keeps_pins(s.drop_last(), cutoff);
    }
}

/// The display order holds every entry once: the pinned ones first, then
/// the others, each group in history order.
pub proof fn law_display_is_stable_partition(s: Seq<EntryView>)
    ensures
        display_spec(s).len() == s.len(),
        display_spec(s).subrange(0, pinned_of(s).len() as int) == pinned_of(s),
        display_spec(s).subrange(pinned_of(s).len() as int, s.len() as int) == unpinned_of(s),
        forall|i: int, j: int|
            0 <= i < j < s.len() && !(#[trigger] display_spec(s)[i]).pinned ==> !(
            #[trigger] display_spec(s)[j]).pinned,
    decreases s.len(),
{
    reveal(Seq::filter);
    if s.len() > 0 {
        law_display_is_stable_partition(s.drop_last());
    }
    let p = pinned_of(s);
    let u = unpinned_of(s);
    assert(display_spec(s).subrange(0, p.len() as int) =~= p);
    assert(display_spec(s).subrange(p.len() as int, (p.len() + u.len()) as int) =~= u);
    assert forall|i: int, j: int|
        0 <= i < j < display_spec(s).len() && !(#[trigger] display_spec(s)[i]).pinned implies !(
        #[trigger] display_spec(s)[j]).pinned by {
        if i < p.len() {
            assert(display_spec(s)[i] == p[i]);
        }
        assert(display_spec(s)[j] == u[j - p.len()]);
    }
}

/// Trimming only keeps entries it was given.
proof fn lemma_trim_subset(s: Seq<EntryView>, max: nat)
    ensures
        forall|x: EntryView| #[trigger] trim_spec(s, max).contains(x) ==> s.contains(x),
    decreases s.len(),
{
    if s.len() > 0 {
        let d = s.drop_last();
        lemma_trim_subset(d, max);
        let t = trim_spec(d, max);
        let r = trim_spec(s, max);
        assert forall|x: EntryView| r.contains(x) implies s.contains(x) by {
            let k = choose|k: int| 0 <= k < r.len() && r[k] == x;
            if k < t.len() {
                assert(r[k] == t[k]);
                assert(t.contains(x));
                assert(d.contains(x));
                let m = choose|m: int| 0 <= m < d.len() && d[m] == x;
                assert(s[m] == x);
            } else {
                assert(s[s.len() - 1] == x);
            }
        }
    }
}

/// Trimming keeps ids unique.
proof fn lemma_trim_unique(s: Seq<EntryView>, max: nat)
    requires
        ids_unique(s),
    ensures
        ids_unique(trim_spec(s, max)),
    decreases s.len(),
{
    if s.len() > 0 {
        let d = s.drop_last();
        assert(ids_unique(d));
        lemma_trim_unique(d, max);
        lemma_trim_subset(d, max);
        let r = trim_spec(s, max);
        assert forall|a: int| 0 <= a < trim_spec(d, max).len() implies #[trigger] r[a] == trim_spec(d, max)[a] by {}
        let t = trim_spec(d, max);
        assert forall|k: int| 0 <= k < t.len() implies t[k].id != s.last().id by {
            assert(t.contains(t[k]));
            assert(d.contains(t[k]));
            let m = choose|m: int| 0 <= m < d.len() && d[m] == t[k];
            assert(s[m] == d[m]);
        }
    }
}

/// Every history operation keeps ids unique: recording (insert), removing
/// one entry, pin flips, clearing, expiry and the size limit.
pub proof fn law_operations_keep_ids_unique(s: Seq<EntryView>, e: EntryView, id: Seq<char>, i: int, max: nat, cutoff: u64)
    requires
        ids_unique(s),
    ensures
        ids_unique(insert_spec(s, e)),
        0 <= i < s.len() ==> ids_unique(s.remove(i)),
        ids_unique(toggle_pin_spec(s, id)),
        ids_unique(pinned_of(s)),
        ids_unique(prune_keep(s, cutoff)),
        ids_unique(trim_spec(s, max)),
{
    law_insert_newest_single_copy(s, e);
    if 0 <= i < s.len() {
        let r = s.remove(i);
        assert forall|a: int, b: int| 0 <= a < r.len() && 0 <= b < r.len() && a != b implies r[a].id
            != r[b].id by {
            let sa = if a < i { a } else { a + 1 };
            let sb = if b < i { b } else { b + 1 };
            assert(r[a] == s[sa] && r[b] == s[sb]);
        }
    }
    let t = toggle_pin_spec(s, id);
    assert forall|a: int| 0 <= a < t.len() implies #[trigger] t[a].id == s[a].id by {}
    lemma_filter_unique(s, |x: EntryView| x.pinned == true);
    lemma_filter_unique(s, |x: EntryView| x.pinned || x.ts >= cutoff);
    lemma_trim_unique(s, max);
}

/// The size limit keeps the newest entry when it allows any unpinned one.
proof fn lemma_trim_keeps_first(s: Seq<EntryView>, max: nat)
    requires
        max >= 1,
        s.len() > 0,
    ensures
        trim_spec(s, max).len() > 0,
        trim_spec(s, max)[0] == s[0],
    decreases s.len(),
{
    reveal(Seq::filter);
    if s.len() == 1 {
        assert(s.drop_last() =~= Seq::<EntryView>::empty());
        assert(trim_spec(s.drop_last(), max) =~= Seq::<EntryView>::empty());
    } else {
        lemma_trim_keeps_first(s.drop_last(), max);
    }
}

/// The applet's own copy, seen again by the watcher, is not recorded.
pub proof fn law_own_copy_not_recorded(a: AppView, text: Seq<char>, html: Option<Seq<char>>, now: u64)
    requires
        a.last_set == Some(str_hash(text)),
    ensures
        update_spec(a, MessageView::ClipboardText(text, html), now) == (a, no_effects()),
{
}

/// Blank text, and text that an ignore pattern matches, is never recorded.
pub proof fn law_blank_or_ignored_not_recorded(
    a: AppView,
    text: Seq<char>,
    html: Option<Seq<char>>,
    now: u64,
)
    requires
        trimmed(text).len() == 0 || ignored(text, a.config.ignore_patterns),
    ensures
        update_spec(a, MessageView::ClipboardText(text, html), now) == (a, no_effects()),
{
}

/// Recorded text becomes the newest entry, with exactly one entry holding
/// it, whatever the expiry, when the size limit allows any entry.
pub proof fn law_recorded_text_is_newest(
    a: AppView,
    text: Seq<char>,
    html: Option<Seq<char>>,
    now: u64,
)
    requires
        a.config.history_size >= 1,
        !(a.last_set == Some(str_hash(text)) || trimmed(text).len() == 0 || ignored(
            text,
            a.config.ignore_patterns,
        )),
    ensures
        ({
            let h = update_spec(a, MessageView::ClipboardText(text, html), now).0.history;
            &&& h.len() > 0
            &&& h[0].text == text
            &&& h[0].html == html
            &&& h[0].id == text_id(text)
            &&& forall|i: int| 1 <= i < h.len() ==> #[trigger] h[i].id != text_id(text)
        }),
{
    let e = text_entry_view(text, html, now);
    let ins = insert_spec(a.history, e);
    law_insert_newest_single_copy(a.history, e);
    let days = a.config.expire_days;
    let pr = prune_rel(ins, days, now);
    if days != 0 {
        let c = cutoff_spec(now, days);
        assert(ins =~= seq![ins[0]] + ins.skip(1));
        assert(ins[0].ts >= c);
        ins.skip(1).lemma_filter_prepend(ins[0], |x: EntryView| x.pinned || x.ts >= c);
        assert(pr == seq![ins[0]] + ins.skip(1).filter(|x: EntryView| x.pinned || x.ts >= c));
        assert forall|i: int| 1 <= i < pr.len() implies #[trigger] pr[i].id != e.id by {
            let f = ins.skip(1).filter(|x: EntryView| x.pinned || x.ts >= c);
            assert(pr[i] == f[i - 1]);
            assert(f.contains(f[i - 1]));
            ins.skip(1).lemma_filter_contains_rev(|x: EntryView| x.pinned || x.ts >= c, f[i - 1]);
            let m = choose|m: int| 0 <= m < ins.skip(1).len() && ins.skip(1)[m] == f[i - 1];
            assert(ins[m + 1] == f[i - 1]);
        }
    }
    let max = a.config.history_size as nat;
    lemma_trim_keeps_first(pr, max);
    lemma_trim_subset(pr, max);
    let h = trim_spec(pr, max);
    assert(pr.len() > 0);
    assert forall|i: int| 1 <= i < h.len() implies #[trigger] h[i].id != text_id(text) by {
        lemma_trim_first_only(pr, max, i);
    }
}

/// An entry after the first in the trimmed history is some entry after the
/// first of the untrimmed one.
proof fn lemma_trim_first_only(s: Seq<EntryView>, max: nat, i: int)
    requires
        max >= 1,
        s.len() > 0,
        1 <= i < trim_spec(s, max).len(),
    ensures
        exists|m: int| 1 <= m < s.len() && s[m] == trim_spec(s, max)[i],
    decreases s.len(),
{
    let d = s.drop_last();
    let t = trim_spec(d, max);
    if i < t.len() {
        assert(trim_spec(s, max)[i] == t[i]);
        if d.len() > 0 {
            lemma_trim_first_only(d, max, i);
            let m = choose|m: int| 1 <= m < d.len() && d[m] == t[i];
            assert(s[m] == d[m]);
        } else {
            assert(t =~= Seq::<EntryView>::empty());
        }
    } else {
        assert(trim_spec(s, max)[i] == s.last());
        if d.len() == 0 {
            assert(t =~= Seq::<EntryView>::empty());
        }
        assert(s[s.len() - 1] == s.last());
    }
}

/// Opening and closing the popup are undone by the other: two toggles
/// restore its state, one opening and one closing it.
pub proof fn law_toggle_popup_twice(a: AppView)
    ensures
        ({
            let (b, e1) = update_spec(a, MessageView::TogglePopup, 0);
            let (c, e2) = update_spec(b, MessageView::TogglePopup, 0);
            &&& b.popup_open == !a.popup_open
            &&& c.popup_open == a.popup_open
            &&& (e1.popup == PopupAction::Open) == (e2.popup == PopupAction::Close)
            &&& (e1.popup == PopupAction::Close) == (e2.popup == PopupAction::Open)
        }),
{
}

/// Keyboard navigation always selects a visible row, when there is one.
pub proof fn law_navigation_stays_visible(a: AppView, down: bool)
    requires
        visible_spec(a).len() > 0,
    ensures
        nav_spec(a, down).selected matches Some(k) && k < visible_spec(nav_spec(a, down)).len(),
{
    assert(visible_spec(nav_spec(a, down)) == visible_spec(a));
}

/// Deleting an entry and then undoing puts it back as the newest entry,
/// every other entry where it was, and empties the undo step again.
pub proof fn law_delete_then_undo(a: AppView, id: Seq<char>, now: u64)
    requires
        ids_unique(a.history),
        first_with_id(a.history, id) is Some,
        a.last_deleted.len() < MAX_UNDO,
    ensures
        ({
            let i = first_with_id(a.history, id)->0;
            let b = update_spec(a, MessageView::Delete(id), now).0;
            let c = update_spec(b, MessageView::UndoDelete, now).0;
            &&& c.history == seq![a.history[i]] + a.history.remove(i)
            &&& c.last_deleted == a.last_deleted
        }),
{
    law_delete_then_restore(a.history, id);
    let i = first_with_id(a.history, id)->0;
    assert(a.last_deleted.push(a.history[i]).drop_last() =~= a.last_deleted);
}

/// The undo list never grows past `MAX_UNDO`.
pub proof fn law_undo_list_bounded(a: AppView, m: MessageView, now: u64)
    requires
        a.last_deleted.len() <= MAX_UNDO,
    ensures
        update_spec(a, m, now).0.last_deleted.len() <= MAX_UNDO,
{
}

/// No message makes two entries share an id.
pub proof fn law_update_keeps_ids_unique(a: AppView, m: MessageView, now: u64)
    requires
        ids_unique(a.history),
    ensures
        ids_unique(update_spec(a, m, now).0.history),
{
    let s = a.history;
    let max = a.config.history_size as nat;
    match m {
        MessageView::Config(c) => {
            law_operations_keep_ids_unique(s, s[0], seq![], 0, 0, cutoff_spec(now, c.expire_days));
            law_operations_keep_ids_unique(
                prune_rel(s, c.expire_days, now), s[0], seq![], 0, c.history_size as nat, 0);
        },
        MessageView::ClipboardText(t, h) => {
            let ins = insert_spec(s, text_entry_view(t, h, now));
            law_operations_keep_ids_unique(s, text_entry_view(t, h, now), seq![], 0, 0, 0);
            law_operations_keep_ids_unique(ins, s[0], seq![], 0, 0, cutoff_spec(now, a.config.expire_days));
            law_operations_keep_ids_unique(prune_rel(ins, a.config.expire_days, now), s[0], seq![], 0, max, 0);
        },
        MessageView::Copy(id) => {
            if let Some(i) = first_with_id(s, id) {
                let ins = insert_spec(s, s[i]);
                law_operations_keep_ids_unique(s, s[i], seq![], 0, 0, 0);
                law_operations_keep_ids_unique(ins, s[i], seq![], 0, max, 0);
            }
        },
        MessageView::Activate => {
            if let Some(k) = a.selected {
                if k < visible_spec(a).len() {
                    let id = visible_spec(a)[k as int].id;
                    if let Some(i) = first_with_id(s, id) {
                        let ins = insert_spec(s, s[i]);
                        law_operations_keep_ids_unique(s, s[i], seq![], 0, 0, 0);
                        law_operations_keep_ids_unique(ins, s[i], seq![], 0, max, 0);
                    }
                }
            }
        },
        MessageView::Delete(id) => {
            lemma_first_with_id(s, id);
            if let Some(i) = first_with_id(s, id) {
                law_operations_keep_ids_unique(s, s[0], seq![], i, 0, 0);
            }
        },
        MessageView::UndoDelete => {
            if a.last_deleted.len() > 0 {
                law_operations_keep_ids_unique(s, a.last_deleted.last(), seq![], 0, 0, 0);
            }
        },
        MessageView::TogglePin(id) => {
            law_operations_keep_ids_unique(s, s[0], id, 0, 0, 0);
        },
        MessageView::ClearHistory => {
            law_operations_keep_ids_unique(s, s[0], seq![], 0, 0, 0);
        },
        MessageView::HistorySize(d) => {
            let next = cycle_spec(size_presets(), a.config.history_size as u64, d);
            law_operations_keep_ids_unique(s, s[0], seq![], 0, next as nat, 0);
        },
        MessageView::ExpireDays(d) => {
            let next = cycle_spec(expire_presets(), a.config.expire_days, d);
            law_operations_keep_ids_unique(s, s[0], seq![], 0, 0, cutoff_spec(now, next));
        },
        _ => {},
    }
}

/// Stepping through presets always lands on one of them: the history size,
/// poll interval and expiry only take their listed values.
pub proof fn law_cycle_stays_in_presets(presets: Seq<u64>, current: u64, direction: i32)
    requires
        presets.len() >= 1,
    ensures
        presets.contains(cycle_spec(presets, current, direction)),
{
    lemma_first_at_least(presets, current);
    let n = cycle_index(presets, current) + direction;
    if n < 0 {
        assert(presets[0] == cycle_spec(presets, current, direction));
    } else if n > presets.len() - 1 {
        assert(presets[presets.len() - 1] == cycle_spec(presets, current, direction));
    } else {
        assert(presets[n] == cycle_spec(presets, current, direction));
    }
}

/// No hexadecimal digit string holds a path separator.
proof fn lemma_hex_digits_no_slash(x: nat, n: nat)
    ensures
        !hex_digits(x, n).contains('/'),
    decreases n,
{
    if n > 0 {
        lemma_hex_digits_no_slash(x / 16, (n - 1) as nat);
        let h = hex_digits(x, n);
        let p = hex_digits(x / 16, (n - 1) as nat);
        assert forall|i: int| 0 <= i < h.len() implies h[i] != '/' by {
            if i < p.len() {
                assert(h[i] == p[i]);
            }
        }
    }
}

/// The payload file name the library gives an image is a plain file name,
/// so `image_path` resolves it inside the images directory.
pub proof fn law_payload_names_are_plain(bytes: Seq<u8>, format: ImageFormat)
    ensures
        plain_file_name(image_file_spec(bytes, format)),
{
    let h = hash_hex_spec(bytes);
    lemma_hex_digits_len(fnv1a(bytes) as nat, 16);
    lemma_hex_digits_no_slash(fnv1a(bytes) as nat, 16);
    let f = image_file_spec(bytes, format);
    let e = ext_spec(format);
    assert(f.len() >= 17);
    assert(f != seq!['.']) by {
        assert(f.len() != seq!['.'].len());
    }
    assert(f != seq!['.', '.']) by {
        assert(f.len() != seq!['.', '.'].len());
    }
    assert forall|i: int| 0 <= i < f.len() implies f[i] != '/' by {
        if i < 16 {
            assert(f[i] == h[i]);
        } else if i == 16 {
        } else {
            assert(f[i] == e[i - 17]);
        }
    }
}

/// Copying an entry (a text entry, or an image entry whose payload was
/// stored) puts exactly that entry on the clipboard, makes it the newest
/// entry with no other entry holding its id, closes the popup and saves the
/// history, whenever the size limit allows any entry.
pub proof fn law_copy_puts_entry_first(a: AppView, id: Seq<char>, i: int, now: u64)
    requires
        0 <= i < a.history.len(),
        a.history[i].id == id,
        forall|j: int| 0 <= j < i ==> #[trigger] a.history[j].id != id,
        a.history[i].kind != Kind::Image || a.history[i].image is Some,
        a.config.history_size >= 1,
    ensures
        ({
            let (b, eff) = update_spec(a, MessageView::Copy(id), now);
            &&& eff.copy == Some(a.history[i])
            &&& eff.save_history
            &&& !b.popup_open
            &&& b.history.len() > 0
            &&& b.history[0] == a.history[i]
            &&& forall|k: int| 1 <= k < b.history.len() ==> #[trigger] b.history[k].id != id
        }),
{
    let s = a.history;
    let e = s[i];
    lemma_first_with_id(s, id);
    assert(first_with_id(s, id) == Some(i));
    assert(with_pinned(e, pinned_after(s, e)) == e);
    law_insert_newest_single_copy(s, e);
    let ins = insert_spec(s, e);
    let max = a.config.history_size as nat;
    lemma_trim_keeps_first(ins, max);
    let h = trim_spec(ins, max);
    assert forall|k: int| 1 <= k < h.len() implies #[trigger] h[k].id != id by {
        lemma_trim_first_only(ins, max, k);
    }
}

/// The popup rows: at most the render cap, every pinned row before every
/// unpinned one, each row an entry of the history that the trimmed,
/// lower-cased query matches, and exactly the first rows of the matching
/// entries in display order (all of them under the cap).
pub proof fn law_visible_rows_pinned_first(a: AppView)
    ensures
        ({
            let v = visible_spec(a);
            let q = lowercase_of(trimmed(a.search));
            let m = display_spec(a.history).filter(query_pred(q));
            &&& v.len() == if m.len() > MAX_RENDER { MAX_RENDER as int } else { m.len() as int }
            &&& forall|k: int| 0 <= k < v.len() ==> v[k] == #[trigger] m[k]
            &&& forall|k: int, l: int|
                0 <= k < l < v.len() && !(#[trigger] v[k]).pinned ==> !(#[trigger] v[l]).pinned
            &&& forall|k: int|
                0 <= k < v.len() ==> a.history.contains(#[trigger] v[k]) && matches_query(
                    v[k],
                    q,
                )
        }),
{
    let s = a.history;
    let v = visible_spec(a);
    let q = lowercase_of(trimmed(a.search));
    let pred = query_pred(q);
    let p = pinned_of(s);
    let u = unpinned_of(s);
    let m = display_spec(s).filter(pred);
    Seq::filter_distributes_over_add(p, u, pred);
    let pf = p.filter(pred);
    let uf = u.filter(pred);
    assert(m == pf + uf);
    assert forall|k: int| 0 <= k < m.len() implies (k < pf.len() <==> (#[trigger] m[k]).pinned) by {
        if k < pf.len() {
            assert(m[k] == pf[k]);
            assert(pf.contains(pf[k]));
            p.lemma_filter_contains_rev(pred, pf[k]);
        } else {
            assert(m[k] == uf[k - pf.len()]);
            assert(uf.contains(uf[k - pf.len()]));
            u.lemma_filter_contains_rev(pred, uf[k - pf.len()]);
        }
    }
    assert forall|k: int| 0 <= k < v.len() implies v[k] == #[trigger] m[k] by {}
    assert forall|k: int, l: int|
        0 <= k < l < v.len() && !(#[trigger] v[k]).pinned implies !(#[trigger] v[l]).pinned by {
        assert(v[k] == m[k]);
        assert(v[l] == m[l]);
    }
    assert forall|k: int| 0 <= k < v.len() implies s.contains(#[trigger] v[k]) && matches_query(
        v[k],
        q,
    ) by {
        assert(v[k] == m[k]);
        assert(pred(m[k]));
        assert(m.contains(m[k]));
        display_spec(s).lemma_filter_contains_rev(pred, m[k]);
        let d = display_spec(s);
        let w = choose|w: int| 0 <= w < d.len() && d[w] == m[k];
        if w < p.len() {
            assert(d[w] == p[w]);
            assert(p.contains(p[w]));
            s.lemma_filter_contains_rev(|e: EntryView| e.pinned == true, p[w]);
        } else {
            assert(d[w] == u[w - p.len()]);
            assert(u.contains(u[w - p.len()]));
            s.lemma_filter_contains_rev(|e: EntryView| e.pinned == false, u[w - p.len()]);
        }
    }
}

/// Clearing the history from the popup keeps exactly its pinned entries in
/// their order (every pinned entry survives, every unpinned one goes) and
/// saves it.
pub proof fn law_clear_message_keeps_pins(a: AppView, now: u64)
    ensures
        ({
            let (b, eff) = update_spec(a, MessageView::ClearHistory, now);
            &&& b.history == a.history.filter(|e: EntryView| e.pinned)
            &&& forall|k: int| 0 <= k < b.history.len() ==> (#[trigger] b.history[k]).pinned
            &&& forall|k: int|
                0 <= k < a.history.len() && a.history[k].pinned ==> b.history.contains(
                    #[trigger] a.history[k],
                )
            &&& eff.save_history
        }),
{
    let s = a.history;
    assert((|e: EntryView| e.pinned == true) =~= (|e: EntryView| e.pinned));
    assert forall|k: int| 0 <= k < s.len() && s[k].pinned implies pinned_of(s).contains(
        #[trigger] s[k],
    ) by {
        s.lemma_filter_contains(|e: EntryView| e.pinned == true, k);
    }
}

/// Toggling a pin from the popup flips the pin of exactly the entries with
/// that id, pinned to unpinned and back, leaves everything else as it was
/// and saves; a second toggle restores the history.
pub proof fn law_toggle_pin_message_flips(a: AppView, id: Seq<char>, now: u64)
    ensures
        ({
            let (b, eff) = update_spec(a, MessageView::TogglePin(id), now);
            let (c, _) = update_spec(b, MessageView::TogglePin(id), now);
            &&& b.history.len() == a.history.len()
            &&& forall|k: int|
                0 <= k < a.history.len() && a.history[k].id == id ==> (#[trigger] b.history[k]).pinned
                    == !a.history[k].pinned && b.history[k] == with_pinned(a.history[k], !a.history[k].pinned)
            &&& forall|k: int|
                0 <= k < a.history.len() && a.history[k].id != id ==> #[trigger] b.history[k]
                    == a.history[k]
            &&& eff.save_history
            &&& c.history == a.history
        }),
{
    law_toggle_pin_twice(a.history, id);
}

} // verus!
