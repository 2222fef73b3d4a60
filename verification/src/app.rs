//! The applet's state and its reaction to each message: the decisions of
//! the popup, separated from the windowing, clipboard and file work, which
//! come back to the caller as effects.
use vstd::prelude::*;

use crate::clipboard::{hash_text, str_hash, Clip, ImageFormat};
use crate::history::{
    cutoff_spec, display_spec, first_with_id, ignored, insert_spec, lemma_first_with_id,
    image_entry_view, now_secs, opt_view, pinned_of, prune_keep, text_entry_view, toggle_pin_spec,
    trim_spec, views, Entry, EntryView, History, Kind,
};
use crate::text::{
    chars_of, contains_seq, lowercase, lowercase_of, contains_chars, string_views, trim_string,
    trimmed,
};

verus! {

/// Do not render more rows than this in the popup; search narrows the rest.
pub const MAX_RENDER: usize = 200;

/// Characters of an entry's first line shown in its row.
pub const PREVIEW_CHARS: usize = 96;

/// Deleted entries kept for undo.
pub const MAX_UNDO: usize = 20;

pub open spec fn size_presets() -> Seq<u64> {
    seq![50u64, 100u64, 250u64, 500u64, 1000u64]
}

pub open spec fn poll_presets() -> Seq<u64> {
    seq![300u64, 800u64, 1500u64, 3000u64]
}

pub open spec fn expire_presets() -> Seq<u64> {
    seq![0u64, 1u64, 7u64, 30u64]
}

fn size_preset_list() -> (r: Vec<u64>)
    ensures
        r@ == size_presets(),
{
    let r = vec![50u64, 100u64, 250u64, 500u64, 1000u64];
    assert(r@ =~= size_presets());
    r
}

fn poll_preset_list() -> (r: Vec<u64>)
    ensures
        r@ == poll_presets(),
{
    let r = vec![300u64, 800u64, 1500u64, 3000u64];
    assert(r@ =~= poll_presets());
    r
}

fn expire_preset_list() -> (r: Vec<u64>)
    ensures
        r@ == expire_presets(),
{
    let r = vec![0u64, 1u64, 7u64, 30u64];
    assert(r@ =~= expire_presets());
    r
}

/// Index of the first preset at least `current`.
pub open spec fn first_at_least(presets: Seq<u64>, current: u64) -> Option<int>
    decreases presets.len(),
{
    if presets.len() == 0 {
        None
    } else {
        match first_at_least(presets.drop_last(), current) {
            Some(i) => Some(i),
            None => if presets.last() >= current {
                Some(presets.len() - 1)
            } else {
                None
            },
        }
    }
}

/// The preset `current` is placed at: the first one at least as large, or
/// the last one.
pub open spec fn cycle_index(presets: Seq<u64>, current: u64) -> int {
    match first_at_least(presets, current) {
        Some(i) => i,
        None => presets.len() - 1,
    }
}

/// The preset `direction` steps from `current`, held to the ends.
pub open spec fn cycle_spec(presets: Seq<u64>, current: u64, direction: i32) -> u64 {
    let n = cycle_index(presets, current) + direction;
    if n < 0 {
        presets[0]
    } else if n > presets.len() - 1 {
        presets.last()
    } else {
        presets[n]
    }
}

pub proof fn lemma_first_at_least(presets: Seq<u64>, current: u64)
    ensures
        match first_at_least(presets, current) {
            Some(i) => 0 <= i < presets.len() && presets[i] >= current && forall|j: int|
                0 <= j < i ==> #[trigger] presets[j] < current,
            None => forall|j: int| 0 <= j < presets.len() ==> #[trigger] presets[j] < current,
        },
    decreases presets.len(),
{
    if presets.len() > 0 {
        lemma_first_at_least(presets.drop_last(), current);
        assert forall|j: int| 0 <= j < presets.len() - 1 implies presets.drop_last()[j]
            == presets[j] by {}
    }
}

/// Steps through `presets` from the one `current` is placed at.
#[verifier::loop_isolation(false)]
pub fn cycle(presets: &[u64], current: u64, direction: i32) -> (r: u64)
    requires
        presets@.len() >= 1,
        presets@.len() <= i32::MAX,
        cycle_index(presets@, current) + direction <= i32::MAX,
    ensures
        r == cycle_spec(presets@, current, direction),
{
    proof {
        lemma_first_at_least(presets@, current);
    }
    let mut idx: usize = presets.len() - 1;
    let mut i: usize = 0;
    while i < presets.len()
        invariant
            i <= presets@.len(),
            idx == presets@.len() - 1,
            forall|j: int| 0 <= j < i ==> #[trigger] presets@[j] < current,
        decreases presets.len() - i,
    {
        if presets[i] >= current {
            idx = i;
            break;
        }
        i += 1;
    }
    assert(idx as int == cycle_index(presets@, current));
    let last = presets.len() as i32 - 1;
    let mut next = idx as i32 + direction;
    if next < 0 {
        next = 0;
    }
    if next > last {
        next = last;
    }
    presets[next as usize]
}

/// Index of the first newline of `s`, or its length when it has none.
pub open spec fn line_end(s: Seq<char>) -> int
    decreases s.len(),
{
    if s.len() == 0 {
        0
    } else {
        let k = line_end(s.drop_last());
        if k < s.len() - 1 {
            k
        } else if s.last() == '\n' {
            s.len() - 1
        } else {
            s.len() as int
        }
    }
}

/// The first line of `s`, as `str::lines` yields it: up to the first
/// newline, without a carriage return that ends it; empty for empty `s`.
pub open spec fn first_line(s: Seq<char>) -> Seq<char> {
    let k = line_end(s);
    let l = s.take(k);
    if k < s.len() && k > 0 && l.last() == '\r' {
        l.drop_last()
    } else {
        l
    }
}

/// The text an image row shows.
pub open spec fn image_label() -> Seq<char> {
    seq!['[', 'i', 'm', 'a', 'g', 'e', ']']
}

/// The row text of an entry: `[image]` for images; otherwise the first
/// line, cut to `PREVIEW_CHARS` characters with an ellipsis when longer.
pub open spec fn preview_spec(e: EntryView) -> Seq<char> {
    match e.kind {
        Kind::Image => image_label(),
        Kind::Text => text_preview_spec(e.text),
    }
}

pub proof fn lemma_line_end(s: Seq<char>)
    ensures
        0 <= line_end(s) <= s.len(),
        line_end(s) < s.len() ==> s[line_end(s)] == '\n',
        forall|j: int| 0 <= j < line_end(s) ==> #[trigger] s[j] != '\n',
    decreases s.len(),
{
    if s.len() > 0 {
        lemma_line_end(s.drop_last());
        assert forall|j: int| 0 <= j < s.len() - 1 implies s.drop_last()[j] == s[j] by {}
    }
}

fn image_label_string() -> (r: String)
    ensures
        r@ == image_label(),
{
    let mut r = String::new();
    r.push('[');
    r.push('i');
    r.push('m');
    r.push('a');
    r.push('g');
    r.push('e');
    r.push(']');
    assert(r@ =~= image_label());
    r
}

/// The row text of a text entry.
pub open spec fn text_preview_spec(text: Seq<char>) -> Seq<char> {
    let f = first_line(text);
    if f.len() > 96 {
        f.take(96).push('\u{2026}')
    } else {
        f
    }
}

fn text_preview(text: &String) -> (r: String)
    ensures
        r@ == text_preview_spec(text@),
{
    let chars = chars_of(text.as_str());
    let ghost s = chars@;
    proof {
        lemma_line_end(s);
    }
    let mut k: usize = 0;
    while k < chars.len() && chars[k] != '\n'
        invariant
            k <= chars@.len(),
            chars@ == s,
            forall|j: int| 0 <= j < k ==> #[trigger] s[j] != '\n',
        decreases chars.len() - k,
    {
        k += 1;
    }
    assert(k as int == line_end(s));
    let mut end = k;
    if k < chars.len() && k > 0 && chars[k - 1] == '\r' {
        end = k - 1;
    }
    let ghost f = first_line(s);
    assert(f =~= s.take(end as int));
    let mut r = String::new();
    let mut i: usize = 0;
    while i < end && i < PREVIEW_CHARS
        invariant
            i <= end,
            i <= PREVIEW_CHARS,
            end <= chars@.len(),
            chars@ == s,
            f == s.take(end as int),
            r@ == f.take(i as int),
        decreases end - i,
    {
        r.push(chars[i]);
        i += 1;
        assert(r@ =~= f.take(i as int));
    }
    if end > PREVIEW_CHARS {
        r.push('\u{2026}');
    } else {
        assert(f.take(i as int) =~= f);
    }
    r
}

/// The text shown in an entry's row.
pub fn preview_text(entry: &Entry) -> (r: String)
    ensures
        r@ == preview_spec(entry@),
{
    match entry.kind {
        Kind::Image => image_label_string(),
        Kind::Text => text_preview(&entry.text),
    }
}

/// The applet's settings.
#[derive(Clone, Debug)]
pub struct Config {
    pub history_size: usize,
    pub poll_ms: u64,
    pub expire_days: u64,
    pub capture_images: bool,
    pub capture_primary: bool,
    pub ignore_patterns: Vec<String>,
}

pub struct ConfigView {
    pub history_size: usize,
    pub poll_ms: u64,
    pub expire_days: u64,
    pub capture_images: bool,
    pub capture_primary: bool,
    pub ignore_patterns: Seq<Seq<char>>,
}

impl View for Config {
    type V = ConfigView;

    open spec fn view(&self) -> ConfigView {
        ConfigView {
            history_size: self.history_size,
            poll_ms: self.poll_ms,
            expire_days: self.expire_days,
            capture_images: self.capture_images,
            capture_primary: self.capture_primary,
            ignore_patterns: string_views(self.ignore_patterns@),
        }
    }
}

impl Default for Config {
    fn default() -> (r: Self)
        ensures
            r@ == (ConfigView {
                history_size: 500,
                poll_ms: 800,
                expire_days: 0,
                capture_images: true,
                capture_primary: false,
                ignore_patterns: seq![],
            }),
    {
        let r = Self {
            history_size: 500,
            poll_ms: 800,
            expire_days: 0,
            capture_images: true,
            capture_primary: false,
            ignore_patterns: Vec::new(),
        };
        assert(r@.ignore_patterns =~= seq![]);
        r
    }
}

/// What reaches the applet: user actions, clipboard content, settings and
/// the results of the work it asked for.
#[derive(Clone, Debug)]
pub enum Message {
    TogglePopup,
    /// A popup closed; whether it is the one the applet has open.
    PopupClosed(bool),
    Escape,
    Config(Config),
    ClipboardContent(Clip),
    Copy(String),
    Copied(Option<u64>),
    Delete(String),
    UndoDelete,
    TogglePin(String),
    ToggleExpand(String),
    ClearHistory,
    Search(String),
    NavUp,
    NavDown,
    Activate,
    ShowSettings(bool),
    HistorySize(i32),
    PollRate(i32),
    ExpireDays(i32),
    ToggleImages(bool),
    TogglePrimary(bool),
    ToggleHtmlView,
    IgnoreInput(String),
    IgnoreAdd,
    IgnoreRemove(String),
    Export,
}

pub enum MessageView {
    TogglePopup,
    PopupClosed(bool),
    Escape,
    Config(ConfigView),
    ClipboardText(Seq<char>, Option<Seq<char>>),
    ClipboardImage(Seq<u8>, ImageFormat),
    Copy(Seq<char>),
    Copied(Option<u64>),
    Delete(Seq<char>),
    UndoDelete,
    TogglePin(Seq<char>),
    ToggleExpand(Seq<char>),
    ClearHistory,
    Search(Seq<char>),
    NavUp,
    NavDown,
    Activate,
    ShowSettings(bool),
    HistorySize(i32),
    PollRate(i32),
    ExpireDays(i32),
    ToggleImages(bool),
    TogglePrimary(bool),
    ToggleHtmlView,
    IgnoreInput(Seq<char>),
    IgnoreAdd,
    IgnoreRemove(Seq<char>),
    Export,
}

impl View for Message {
    type V = MessageView;

    open spec fn view(&self) -> MessageView {
        match self {
            Message::TogglePopup => MessageView::TogglePopup,
            Message::PopupClosed(b) => MessageView::PopupClosed(*b),
            Message::Escape => MessageView::Escape,
            Message::Config(c) => MessageView::Config(c@),
            Message::ClipboardContent(Clip::Text(t, h)) => MessageView::ClipboardText(t@, opt_view(*h)),
            Message::ClipboardContent(Clip::Image(b, f)) => MessageView::ClipboardImage(b@, *f),
            Message::Copy(id) => MessageView::Copy(id@),
            Message::Copied(h) => MessageView::Copied(*h),
            Message::Delete(id) => MessageView::Delete(id@),
            Message::UndoDelete => MessageView::UndoDelete,
            Message::TogglePin(id) => MessageView::TogglePin(id@),
            Message::ToggleExpand(id) => MessageView::ToggleExpand(id@),
            Message::ClearHistory => MessageView::ClearHistory,
            Message::Search(q) => MessageView::Search(q@),
            Message::NavUp => MessageView::NavUp,
            Message::NavDown => MessageView::NavDown,
            Message::Activate => MessageView::Activate,
            Message::ShowSettings(b) => MessageView::ShowSettings(*b),
            Message::HistorySize(d) => MessageView::HistorySize(*d),
            Message::PollRate(d) => MessageView::PollRate(*d),
            Message::ExpireDays(d) => MessageView::ExpireDays(*d),
            Message::ToggleImages(b) => MessageView::ToggleImages(*b),
            Message::TogglePrimary(b) => MessageView::TogglePrimary(*b),
            Message::ToggleHtmlView => MessageView::ToggleHtmlView,
            Message::IgnoreInput(t) => MessageView::IgnoreInput(t@),
            Message::IgnoreAdd => MessageView::IgnoreAdd,
            Message::IgnoreRemove(p) => MessageView::IgnoreRemove(p@),
            Message::Export => MessageView::Export,
        }
    }
}

/// What the popup window is to do.
#[derive(Clone, Copy, Debug, PartialEq, Eq, Structural)]
pub enum PopupAction {
    Keep,
    /// Open it and focus the search field.
    Open,
    Close,
}

/// The work a message asks of the caller, beyond the state change.
#[derive(Debug)]
pub struct Effects {
    pub popup: PopupAction,
    /// Put this entry on the clipboard and report its hash back with
    /// `Message::Copied`.
    pub copy: Option<Entry>,
    /// Store this image payload; once stored, record it with
    /// `App::record_image_at`.
    pub store_image: Option<(Vec<u8>, ImageFormat)>,
    pub save_history: bool,
    pub write_config: bool,
    /// Export the history and put the outcome in `export_msg`.
    pub export: bool,
}

pub struct EffectsView {
    pub popup: PopupAction,
    pub copy: Option<EntryView>,
    pub store_image: Option<(Seq<u8>, ImageFormat)>,
    pub save_history: bool,
    pub write_config: bool,
    pub export: bool,
}

impl View for Effects {
    type V = EffectsView;

    open spec fn view(&self) -> EffectsView {
        EffectsView {
            popup: self.popup,
            copy: match self.copy {
                Some(e) => Some(e@),
                None => None,
            },
            store_image: match self.store_image {
                Some((b, f)) => Some((b@, f)),
                None => None,
            },
            save_history: self.save_history,
            write_config: self.write_config,
            export: self.export,
        }
    }
}

pub open spec fn no_effects() -> EffectsView {
    EffectsView {
        popup: PopupAction::Keep,
        copy: None,
        store_image: None,
        save_history: false,
        write_config: false,
        export: false,
    }
}

fn none() -> (r: Effects)
    ensures
        r@ == no_effects(),
{
    Effects {
        popup: PopupAction::Keep,
        copy: None,
        store_image: None,
        save_history: false,
        write_config: false,
        export: false,
    }
}

/// The applet's state, apart from the windowing handles.
pub struct App {
    pub popup_open: bool,
    pub config: Config,
    pub history: History,
    pub search: String,
    /// Hash of content we just placed on the clipboard, so the watcher
    /// does not re-record our own copy. Stays set until fresh external
    /// content arrives, so both clipboard targets are suppressed.
    pub last_set: Option<u64>,
    /// Entry id currently expanded to full view.
    pub expanded: Option<String>,
    /// Whether the expanded entry shows its HTML source instead of text.
    pub expanded_html: bool,
    /// Index into the visible list highlighted via keyboard navigation.
    pub selected: Option<usize>,
    /// Recently deleted entries for undo, newest delete last.
    pub last_deleted: Vec<Entry>,
    pub show_settings: bool,
    pub ignore_input: String,
    pub export_msg: Option<String>,
}

pub struct AppView {
    pub popup_open: bool,
    pub config: ConfigView,
    pub history: Seq<EntryView>,
    pub search: Seq<char>,
    pub last_set: Option<u64>,
    pub expanded: Option<Seq<char>>,
    pub expanded_html: bool,
    pub selected: Option<usize>,
    pub last_deleted: Seq<EntryView>,
    pub show_settings: bool,
    pub ignore_input: Seq<char>,
    pub export_msg: Option<Seq<char>>,
}

impl View for App {
    type V = AppView;

    open spec fn view(&self) -> AppView {
        AppView {
            popup_open: self.popup_open,
            config: self.config@,
            history: self.history@,
            search: self.search@,
            last_set: self.last_set,
            expanded: opt_view(self.expanded),
            expanded_html: self.expanded_html,
            selected: self.selected,
            last_deleted: views(self.last_deleted@),
            show_settings: self.show_settings,
            ignore_input: self.ignore_input@,
            export_msg: opt_view(self.export_msg),
        }
    }
}

/// The condition under which the applet works without overflow: a
/// keyboard selection inside the render cap.
pub open spec fn app_ok(a: AppView) -> bool {
    a.selected matches Some(i) ==> i < MAX_RENDER
}

/// An entry matches a lower-cased, trimmed search query.
pub open spec fn matches_query(e: EntryView, query: Seq<char>) -> bool {
    ||| query.len() == 0
    ||| contains_seq(lowercase_of(e.text), query)
    ||| (e.kind == Kind::Image && contains_seq(image_label(), query))
}

pub open spec fn query_pred(query: Seq<char>) -> spec_fn(EntryView) -> bool {
    |e: EntryView| matches_query(e, query)
}

/// Entries visible in the popup: the display order, filtered by the search
/// query, cut to the render cap.
pub open spec fn visible_spec(a: AppView) -> Seq<EntryView> {
    let query = lowercase_of(trimmed(a.search));
    let m = display_spec(a.history).filter(query_pred(query));
    if m.len() > MAX_RENDER {
        m.take(MAX_RENDER as int)
    } else {
        m
    }
}

/// Expiry of `days` at time `now` (0 keeps everything).
pub open spec fn prune_rel(s: Seq<EntryView>, days: u64, now: u64) -> Seq<EntryView> {
    if days == 0 {
        s
    } else {
        prune_keep(s, cutoff_spec(now, days))
    }
}

/// Copying the entry with id `id`: it goes to the clipboard and becomes the
/// newest entry, and the popup closes. An image entry without a payload
/// file, or an unknown id, changes nothing.
pub open spec fn copy_spec(a: AppView, id: Seq<char>) -> (AppView, EffectsView) {
    match first_with_id(a.history, id) {
        None => (a, no_effects()),
        Some(i) => {
            let e = a.history[i];
            if e.kind == Kind::Image && e.image is None {
                (a, no_effects())
            } else {
                (
                    AppView {
                        history: trim_spec(
                            insert_spec(a.history, e),
                            a.config.history_size as nat,
                        ),
                        popup_open: false,
                        ..a
                    },
                    EffectsView {
                        popup: if a.popup_open {
                            PopupAction::Close
                        } else {
                            PopupAction::Keep
                        },
                        copy: Some(e),
                        save_history: true,
                        ..no_effects()
                    },
                )
            }
        },
    }
}

/// New clipboard text (with its HTML form, if any): skipped when it is the applet's own copy, blank, or
/// ignored; otherwise recorded as the newest entry, then expiry and the
/// size limit apply and the history is saved.
pub open spec fn clipboard_text_spec(
    a: AppView,
    text: Seq<char>,
    html: Option<Seq<char>>,
    now: u64,
) -> (
    AppView,
    EffectsView,
) {
    if a.last_set == Some(str_hash(text)) || trimmed(text).len() == 0 || ignored(
        text,
        a.config.ignore_patterns,
    ) {
        (a, no_effects())
    } else {
        (
            AppView {
                history: trim_spec(
                    prune_rel(
                        insert_spec(a.history, text_entry_view(text, html, now)),
                        a.config.expire_days,
                        now,
                    ),
                    a.config.history_size as nat,
                ),
                last_set: None,
                ..a
            },
            EffectsView { save_history: true, ..no_effects() },
        )
    }
}

/// A keyboard step through the visible rows, held to the first and last.
pub open spec fn nav_spec(a: AppView, down: bool) -> AppView {
    let len = visible_spec(a).len();
    if len == 0 {
        a
    } else {
        let current: int = match a.selected {
            Some(i) => i as int,
            None => 0,
        };
        let n = if down { current + 1 } else { current - 1 };
        let k = if n < 0 { 0 } else if n > len - 1 { len - 1 } else { n };
        AppView { selected: Some(k as usize), ..a }
    }
}

/// Deleting an entry keeps it for undo (at most `MAX_UNDO`, the oldest
/// dropped first) and saves; its expanded view closes.
pub open spec fn delete_spec(a: AppView, id: Seq<char>) -> (AppView, EffectsView) {
    let expanded = if a.expanded == Some(id) {
        None
    } else {
        a.expanded
    };
    match first_with_id(a.history, id) {
        Some(i) => {
            let kept = a.last_deleted.push(a.history[i]);
            (
                AppView {
                    history: a.history.remove(i),
                    last_deleted: if kept.len() > MAX_UNDO {
                        kept.drop_first()
                    } else {
                        kept
                    },
                    expanded,
                    ..a
                },
                EffectsView { save_history: true, ..no_effects() },
            )
        },
        None => (AppView { expanded, ..a }, no_effects()),
    }
}

/// A settings change that only writes the configuration.
pub open spec fn config_changed(a: AppView, c: ConfigView) -> (AppView, EffectsView) {
    (AppView { config: c, ..a }, EffectsView { write_config: true, ..no_effects() })
}

/// The applet after `m` arrives at time `now`, and the work it asks for.
pub open spec fn update_spec(a: AppView, m: MessageView, now: u64) -> (AppView, EffectsView) {
    match m {
        MessageView::TogglePopup => if a.popup_open {
            (AppView { popup_open: false, ..a }, EffectsView { popup: PopupAction::Close, ..no_effects() })
        } else {
            (
                AppView {
                    popup_open: true,
                    selected: None,
                    expanded: None,
                    expanded_html: false,
                    search: seq![],
                    ..a
                },
                EffectsView { popup: PopupAction::Open, ..no_effects() },
            )
        },
        MessageView::PopupClosed(current) => if current {
            (AppView { popup_open: false, ..a }, no_effects())
        } else {
            (a, no_effects())
        },
        MessageView::Escape => if a.popup_open {
            (AppView { popup_open: false, ..a }, EffectsView { popup: PopupAction::Close, ..no_effects() })
        } else {
            (a, no_effects())
        },
        MessageView::Config(c) => (
            AppView {
                config: c,
                history: trim_spec(prune_rel(a.history, c.expire_days, now), c.history_size as nat),
                ..a
            },
            no_effects(),
        ),
        MessageView::ClipboardText(t, h) => clipboard_text_spec(a, t, h, now),
        MessageView::ClipboardImage(b, f) => (a, EffectsView { store_image: Some((b, f)), ..no_effects() }),
        MessageView::Copy(id) => copy_spec(a, id),
        MessageView::Copied(h) => match h {
            Some(h) => (AppView { last_set: Some(h), ..a }, no_effects()),
            None => (a, no_effects()),
        },
        MessageView::Delete(id) => delete_spec(a, id),
        MessageView::UndoDelete => if a.last_deleted.len() > 0 {
            (
                AppView {
                    history: insert_spec(a.history, a.last_deleted.last()),
                    last_deleted: a.last_deleted.drop_last(),
                    ..a
                },
                EffectsView { save_history: true, ..no_effects() },
            )
        } else {
            (a, no_effects())
        },
        MessageView::TogglePin(id) => (
            AppView { history: toggle_pin_spec(a.history, id), ..a },
            EffectsView { save_history: true, ..no_effects() },
        ),
        MessageView::ToggleExpand(id) => (
            AppView {
                expanded: if a.expanded == Some(id) {
                    None
                } else {
                    Some(id)
                },
                expanded_html: false,
                ..a
            },
            no_effects(),
        ),
        MessageView::ClearHistory => (
            AppView { history: pinned_of(a.history), ..a },
            EffectsView { save_history: true, ..no_effects() },
        ),
        MessageView::Search(q) => (AppView { search: q, selected: None, ..a }, no_effects()),
        MessageView::NavUp => (nav_spec(a, false), no_effects()),
        MessageView::NavDown => (nav_spec(a, true), no_effects()),
        MessageView::Activate => match a.selected {
            Some(i) => if i < visible_spec(a).len() {
                copy_spec(a, visible_spec(a)[i as int].id)
            } else {
                (a, no_effects())
            },
            None => (a, no_effects()),
        },
        MessageView::ShowSettings(show) => (
            AppView { show_settings: show, export_msg: None, ..a },
            no_effects(),
        ),
        MessageView::HistorySize(d) => {
            let next = cycle_spec(size_presets(), a.config.history_size as u64, d);
            if next == a.config.history_size {
                (a, no_effects())
            } else {
                (
                    AppView {
                        config: ConfigView { history_size: next as usize, ..a.config },
                        history: trim_spec(a.history, next as nat),
                        ..a
                    },
                    EffectsView { write_config: true, save_history: true, ..no_effects() },
                )
            }
        },
        MessageView::PollRate(d) => {
            let next = cycle_spec(poll_presets(), a.config.poll_ms, d);
            if next == a.config.poll_ms {
                (a, no_effects())
            } else {
                config_changed(a, ConfigView { poll_ms: next, ..a.config })
            }
        },
        MessageView::ExpireDays(d) => {
            let next = cycle_spec(expire_presets(), a.config.expire_days, d);
            if next == a.config.expire_days {
                (a, no_effects())
            } else {
                (
                    AppView {
                        config: ConfigView { expire_days: next, ..a.config },
                        history: prune_rel(a.history, next, now),
                        ..a
                    },
                    EffectsView { write_config: true, save_history: true, ..no_effects() },
                )
            }
        },
        MessageView::ToggleImages(on) => config_changed(
            a,
            ConfigView { capture_images: on, ..a.config },
        ),
        MessageView::TogglePrimary(on) => config_changed(
            a,
            ConfigView { capture_primary: on, ..a.config },
        ),
        MessageView::ToggleHtmlView => (
            AppView { expanded_html: !a.expanded_html, ..a },
            no_effects(),
        ),
        MessageView::IgnoreInput(t) => (AppView { ignore_input: t, ..a }, no_effects()),
        MessageView::IgnoreAdd => {
            let p = trimmed(a.ignore_input);
            if p.len() > 0 && !a.config.ignore_patterns.contains(p) {
                (
                    AppView {
                        config: ConfigView {
                            ignore_patterns: a.config.ignore_patterns.push(p),
                            ..a.config
                        },
                        ignore_input: seq![],
                        ..a
                    },
                    EffectsView { write_config: true, ..no_effects() },
                )
            } else {
                (AppView { ignore_input: seq![], ..a }, no_effects())
            }
        },
        MessageView::IgnoreRemove(p) => config_changed(
            a,
            ConfigView {
                ignore_patterns: a.config.ignore_patterns.filter(differs_from(p)),
                ..a.config
            },
        ),
        MessageView::Export => (a, EffectsView { export: true, ..no_effects() }),
    }
}

/// Whether `update` may take `m`: a preset step does not overflow.
pub open spec fn message_ok(a: AppView, m: MessageView) -> bool {
    match m {
        MessageView::HistorySize(d) => cycle_index(size_presets(), a.config.history_size as u64) + d
            <= i32::MAX,
        MessageView::PollRate(d) => cycle_index(poll_presets(), a.config.poll_ms) + d <= i32::MAX,
        MessageView::ExpireDays(d) => cycle_index(expire_presets(), a.config.expire_days) + d
            <= i32::MAX,
        _ => true,
    }
}

/// The strings other than `p`.
pub open spec fn differs_from(p: Seq<char>) -> spec_fn(Seq<char>) -> bool {
    |q: Seq<char>| q != p
}

/// Whether `v` holds a string with the characters of `s`.
fn contains_string(v: &Vec<String>, s: &String) -> (r: bool)
    ensures
        r == string_views(v@).contains(s@),
{
    let mut i: usize = 0;
    while i < v.len()
        invariant
            i <= v@.len(),
            forall|j: int| 0 <= j < i ==> #[trigger] string_views(v@)[j] != s@,
        decreases v.len() - i,
    {
        if v[i] == *s {
            assert(string_views(v@)[i as int] == s@);
            return true;
        }
        i += 1;
    }
    false
}

/// `v` without the strings with the characters of `s`.
fn without_string(v: &Vec<String>, s: &String) -> (r: Vec<String>)
    ensures
        string_views(r@) == string_views(v@).filter(differs_from(s@)),
{
    let ghost sv = string_views(v@);
    let mut r: Vec<String> = Vec::new();
    let mut i: usize = 0;
    while i < v.len()
        invariant
            i <= v@.len(),
            sv == string_views(v@),
            string_views(r@) == sv.take(i as int).filter(differs_from(s@)),
        decreases v.len() - i,
    {
        proof {
            reveal(Seq::filter);
        }
        let ghost prefix = sv.take(i + 1);
        assert(prefix.drop_last() =~= sv.take(i as int));
        assert(prefix.last() == v@[i as int]@);
        if v[i] != *s {
            r.push(v[i].clone());
            assert(string_views(r@) =~= sv.take(i as int).filter(differs_from(s@)).push(
                v@[i as int]@,
            ));
        }
        i += 1;
    }
    assert(sv.take(v.len() as int) =~= sv);
    r
}

proof fn lemma_filter_prefix(s: Seq<EntryView>, p: spec_fn(EntryView) -> bool, i: int)
    requires
        0 <= i <= s.len(),
    ensures
        s.filter(p) == s.take(i).filter(p) + s.skip(i).filter(p),
{
    assert(s =~= s.take(i) + s.skip(i));
    Seq::filter_distributes_over_add(s.take(i), s.skip(i), p);
}

impl Default for App {
    fn default() -> (r: Self)
        ensures
            r@ == (AppView {
                popup_open: false,
                config: r@.config,
                history: seq![],
                search: seq![],
                last_set: None,
                expanded: None,
                expanded_html: false,
                selected: None,
                last_deleted: seq![],
                show_settings: false,
                ignore_input: seq![],
                export_msg: None,
            }),
            r.config@ == (ConfigView {
                history_size: 500,
                poll_ms: 800,
                expire_days: 0,
                capture_images: true,
                capture_primary: false,
                ignore_patterns: seq![],
            }),
    {
        let r = App {
            popup_open: false,
            config: Config::default(),
            history: History::default(),
            search: String::new(),
            last_set: None,
            expanded: None,
            expanded_html: false,
            selected: None,
            last_deleted: Vec::new(),
            show_settings: false,
            ignore_input: String::new(),
            export_msg: None,
        };
        assert(views(r.last_deleted@) =~= seq![]);
        r
    }
}

impl App {
    /// The applet at start-up with its stored settings and history, stamped
    /// `now`: expiry and the size limit apply to the loaded history.
    pub fn new_at(config: Config, history: History, now: u64) -> (r: Self)
        ensures
            r@ == (AppView {
                popup_open: false,
                config: config@,
                history: trim_spec(
                    prune_rel(history@, config@.expire_days, now),
                    config@.history_size as nat,
                ),
                search: seq![],
                last_set: None,
                expanded: None,
                expanded_html: false,
                selected: None,
                last_deleted: seq![],
                show_settings: false,
                ignore_input: seq![],
                export_msg: None,
            }),
            app_ok(r@),
    {
        let mut history = history;
        history.prune_at(config.expire_days, now);
        history.trim(config.history_size);
        let mut r = App::default();
        r.config = config;
        r.history = history;
        r
    }

    /// Entries visible in the popup (search filter + pin order + render cap).
    pub fn visible(&self) -> (r: Vec<Entry>)
        ensures
            views(r@) == visible_spec(self@),
    {
        let query = lowercase(trim_string(self.search.as_str()).as_str());
        let ghost q = query@;
        let ghost pred = query_pred(q);
        let shown = self.history.display();
        let ghost dv = views(shown@);
        let label = image_label_string();
        let mut r: Vec<Entry> = Vec::new();
        let mut i: usize = 0;
        while i < shown.len() && r.len() < MAX_RENDER
            invariant
                i <= shown@.len(),
                dv == views(shown@),
                dv == display_spec(self@.history),
                q == lowercase_of(trimmed(self@.search)),
                query@ == q,
                pred == query_pred(q),
                label@ == image_label(),
                r@.len() <= MAX_RENDER,
                views(r@) == dv.take(i as int).filter(pred),
            decreases shown.len() - i,
        {
            proof {
                reveal(Seq::filter);
            }
            let ghost prefix = dv.take(i + 1);
            assert(prefix.drop_last() =~= dv.take(i as int));
            assert(prefix.last() == shown@[i as int]@);
            let e = &shown[i];
            let hit = query.as_str().is_empty() || contains_chars(
                lowercase(e.text.as_str()).as_str(),
                query.as_str(),
            ) || (e.kind == Kind::Image && contains_chars(label.as_str(), query.as_str()));
            assert(hit == matches_query(e@, q));
            if hit {
                r.push(e.clone());
                assert(views(r@) =~= dv.take(i as int).filter(pred).push(e@));
            } else {
                assert(!matches_query(e@, q));
                assert(e@ == prefix.last());
                assert(!pred(e@));
                assert(prefix.filter(pred) == dv.take(i as int).filter(pred));
            }
            i += 1;
        }
        proof {
            lemma_filter_prefix(dv, pred, i as int);
            let m = dv.filter(pred);
            if i == shown@.len() {
                assert(dv.take(i as int) =~= dv);
                assert(dv.skip(i as int) =~= seq![]);
                assert(m =~= dv.take(i as int).filter(pred));
            } else {
                assert(m.take(MAX_RENDER as int) =~= views(r@));
            }
        }
        r
    }

    /// Moves the keyboard selection one visible row down or up.
    fn navigate(&mut self, down: bool)
        requires
            app_ok(old(self)@),
        ensures
            final(self)@ == nav_spec(old(self)@, down),
    {
        let len = self.visible().len();
        if len == 0 {
            return;
        }
        let current: i32 = match self.selected {
            Some(i) => i as i32,
            None => 0,
        };
        let delta: i32 = if down { 1 } else { -1 };
        let mut n = current + delta;
        let last = len as i32 - 1;
        if n < 0 {
            n = 0;
        }
        if n > last {
            n = last;
        }
        self.selected = Some(n as usize);
    }

    /// Puts the entry with id `id` on the clipboard (through the effects)
    /// and makes it the newest entry.
    fn copy_entry(&mut self, id: &String) -> (r: Effects)
        ensures
            (final(self)@, r@) == copy_spec(old(self)@, id@),
    {
        proof {
            lemma_first_with_id(self@.history, id@);
        }
        let entry = match self.history.get(id.as_str()) {
            Some(e) => e.clone(),
            None => return none(),
        };
        if entry.kind == Kind::Image && entry.image.is_none() {
            return none();
        }
        self.history.restore(entry.clone());
        self.history.trim(self.config.history_size);
        let popup = if self.popup_open {
            self.popup_open = false;
            PopupAction::Close
        } else {
            PopupAction::Keep
        };
        Effects {
            popup,
            copy: Some(entry),
            store_image: None,
            save_history: true,
            write_config: false,
            export: false,
        }
    }
    fn on_clipboard_text(&mut self, text: String, html: Option<String>, now: u64) -> (r: Effects)
        requires
            app_ok(old(self)@),
        ensures
            (final(self)@, r@) == update_spec(
                old(self)@,
                MessageView::ClipboardText(text@, opt_view(html)),
                now,
            ),
            app_ok(final(self)@),
    {
        let hash = hash_text(text.as_str());
        if let Some(h) = self.last_set {
            if h == hash {
                return none();
            }
        }
        if trim_string(text.as_str()).as_str().is_empty() {
            return none();
        }
        if self.history.add_text_at(text, html, self.config.ignore_patterns.as_slice(), now) {
            self.last_set = None;
            self.history.prune_at(self.config.expire_days, now);
            self.history.trim(self.config.history_size);
            Effects {
                popup: PopupAction::Keep,
                copy: None,
                store_image: None,
                save_history: true,
                write_config: false,
                export: false,
            }
        } else {
            none()
        }
    }

    fn on_delete(&mut self, id: String) -> (r: Effects)
        requires
            app_ok(old(self)@),
        ensures
            (final(self)@, r@) == update_spec(old(self)@, MessageView::Delete(id@), 0),
            app_ok(final(self)@),
    {
        let ghost a = self@;
        proof {
            lemma_first_with_id(a.history, id@);
        }
        let mut r = none();
        if let Some(removed) = self.history.delete(id.as_str()) {
            let ghost before = self.last_deleted@;
            self.last_deleted.push(removed);
            if self.last_deleted.len() > MAX_UNDO {
                let ghost pushed = self.last_deleted@;
                self.last_deleted.remove(0);
                assert(views(self.last_deleted@) =~= views(pushed).drop_first());
            }
            assert(views(before.push(removed)) =~= views(before).push(removed@));
            r.save_history = true;
        }
        let same = match &self.expanded {
            Some(x) => *x == id,
            None => false,
        };
        if same {
            self.expanded = None;
        }
        r
    }

    fn on_undo_delete(&mut self) -> (r: Effects)
        requires
            app_ok(old(self)@),
        ensures
            (final(self)@, r@) == update_spec(old(self)@, MessageView::UndoDelete, 0),
            app_ok(final(self)@),
    {
        let ghost before = self.last_deleted@;
        match self.last_deleted.pop() {
            Some(entry) => {
                assert(views(self.last_deleted@) =~= views(before).drop_last());
                self.history.restore(entry);
                let mut r = none();
                r.save_history = true;
                r
            },
            None => none(),
        }
    }

    fn on_history_size(&mut self, direction: i32) -> (r: Effects)
        requires
            app_ok(old(self)@),
            message_ok(old(self)@, MessageView::HistorySize(direction)),
        ensures
            (final(self)@, r@) == update_spec(old(self)@, MessageView::HistorySize(direction), 0),
            app_ok(final(self)@),
    {
        let presets = size_preset_list();
        let next = cycle(presets.as_slice(), self.config.history_size as u64, direction);
        assert(next <= 1000);
        if next != self.config.history_size as u64 {
            self.config.history_size = next as usize;
            self.history.trim(next as usize);
            let mut r = none();
            r.write_config = true;
            r.save_history = true;
            r
        } else {
            none()
        }
    }

    fn on_poll_rate(&mut self, direction: i32) -> (r: Effects)
        requires
            app_ok(old(self)@),
            message_ok(old(self)@, MessageView::PollRate(direction)),
        ensures
            (final(self)@, r@) == update_spec(old(self)@, MessageView::PollRate(direction), 0),
            app_ok(final(self)@),
    {
        let presets = poll_preset_list();
        let next = cycle(presets.as_slice(), self.config.poll_ms, direction);
        if next != self.config.poll_ms {
            self.config.poll_ms = next;
            let mut r = none();
            r.write_config = true;
            r
        } else {
            none()
        }
    }

    fn on_expire_days(&mut self, direction: i32, now: u64) -> (r: Effects)
        requires
            app_ok(old(self)@),
            message_ok(old(self)@, MessageView::ExpireDays(direction)),
        ensures
            (final(self)@, r@) == update_spec(old(self)@, MessageView::ExpireDays(direction), now),
            app_ok(final(self)@),
    {
        let presets = expire_preset_list();
        let next = cycle(presets.as_slice(), self.config.expire_days, direction);
        assert(next <= 30);
        if next != self.config.expire_days {
            self.config.expire_days = next;
            self.history.prune_at(next, now);
            let mut r = none();
            r.write_config = true;
            r.save_history = true;
            r
        } else {
            none()
        }
    }

    fn on_ignore_add(&mut self) -> (r: Effects)
        requires
            app_ok(old(self)@),
        ensures
            (final(self)@, r@) == update_spec(old(self)@, MessageView::IgnoreAdd, 0),
            app_ok(final(self)@),
    {
        let pattern = trim_string(self.ignore_input.as_str());
        let mut r = none();
        if !pattern.as_str().is_empty() && !contains_string(&self.config.ignore_patterns, &pattern) {
            let ghost before = self.config.ignore_patterns@;
            self.config.ignore_patterns.push(pattern);
            assert(string_views(self.config.ignore_patterns@) =~= string_views(before).push(
                trimmed(old(self)@.ignore_input),
            ));
            r.write_config = true;
        }
        self.ignore_input = String::new();
        r
    }

    fn on_ignore_remove(&mut self, pattern: String) -> (r: Effects)
        requires
            app_ok(old(self)@),
        ensures
            (final(self)@, r@) == update_spec(old(self)@, MessageView::IgnoreRemove(pattern@), 0),
            app_ok(final(self)@),
    {
        self.config.ignore_patterns = without_string(&self.config.ignore_patterns, &pattern);
        let mut r = none();
        r.write_config = true;
        r
    }


    /// Applies `message`, arriving at time `now`, and returns the work it
    /// asks of the caller.
    pub fn update_at(&mut self, message: Message, now: u64) -> (r: Effects)
        requires
            app_ok(old(self)@),
            message_ok(old(self)@, message@),
        ensures
            (final(self)@, r@) == update_spec(old(self)@, message@, now),
            app_ok(final(self)@),
    {
        match message {
            Message::TogglePopup => {
                let mut r = none();
                if self.popup_open {
                    self.popup_open = false;
                    r.popup = PopupAction::Close;
                } else {
                    self.popup_open = true;
                    self.selected = None;
                    self.expanded = None;
                    self.expanded_html = false;
                    self.search = String::new();
                    r.popup = PopupAction::Open;
                }
                r
            },
            Message::PopupClosed(current) => {
                if current {
                    self.popup_open = false;
                }
                none()
            },
            Message::Escape => {
                let mut r = none();
                if self.popup_open {
                    self.popup_open = false;
                    r.popup = PopupAction::Close;
                }
                r
            },
            Message::Config(config) => {
                self.config = config;
                self.history.prune_at(self.config.expire_days, now);
                self.history.trim(self.config.history_size);
                none()
            },
            Message::ClipboardContent(Clip::Text(text, html)) => self.on_clipboard_text(text, html, now),
            Message::ClipboardContent(Clip::Image(bytes, format)) => {
                let mut r = none();
                r.store_image = Some((bytes, format));
                r
            },
            Message::Copy(id) => self.copy_entry(&id),
            Message::Copied(hash) => {
                if let Some(hash) = hash {
                    self.last_set = Some(hash);
                }
                none()
            },
            Message::Delete(id) => self.on_delete(id),
            Message::UndoDelete => self.on_undo_delete(),
            Message::TogglePin(id) => {
                self.history.toggle_pin(id.as_str());
                let mut r = none();
                r.save_history = true;
                r
            },
            Message::ToggleExpand(id) => {
                let same = match &self.expanded {
                    Some(x) => *x == id,
                    None => false,
                };
                self.expanded = if same {
                    None
                } else {
                    Some(id)
                };
                self.expanded_html = false;
                none()
            },
            Message::ToggleHtmlView => {
                self.expanded_html = !self.expanded_html;
                none()
            },
            Message::TogglePrimary(enabled) => {
                self.config.capture_primary = enabled;
                let mut r = none();
                r.write_config = true;
                r
            },
            Message::ClearHistory => {
                self.history.clear();
                let mut r = none();
                r.save_history = true;
                r
            },
            Message::Search(search) => {
                self.search = search;
                self.selected = None;
                none()
            },
            Message::NavUp => {
                self.navigate(false);
                none()
            },
            Message::NavDown => {
                self.navigate(true);
                none()
            },
            Message::Activate => {
                if let Some(idx) = self.selected {
                    let visible = self.visible();
                    if idx < visible.len() {
                        let id = visible[idx].id.clone();
                        return self.copy_entry(&id);
                    }
                }
                none()
            },
            Message::ShowSettings(show) => {
                self.show_settings = show;
                self.export_msg = None;
                none()
            },
            Message::HistorySize(direction) => self.on_history_size(direction),
            Message::PollRate(direction) => self.on_poll_rate(direction),
            Message::ExpireDays(direction) => self.on_expire_days(direction, now),
            Message::ToggleImages(enabled) => {
                self.config.capture_images = enabled;
                let mut r = none();
                r.write_config = true;
                r
            },
            Message::IgnoreInput(input) => {
                self.ignore_input = input;
                none()
            },
            Message::IgnoreAdd => self.on_ignore_add(),
            Message::IgnoreRemove(pattern) => self.on_ignore_remove(pattern),
            Message::Export => {
                let mut r = none();
                r.export = true;
                r
            },
        }
    }

    /// Applies `message` as the clock reads now.
    pub fn update(&mut self, message: Message) -> (r: Effects)
        requires
            app_ok(old(self)@),
            message_ok(old(self)@, message@),
        ensures
            exists|now: u64| (final(self)@, r@) == #[trigger] update_spec(old(self)@, message@, now),
            app_ok(final(self)@),
    {
        let now = now_secs();
        self.update_at(message, now)
    }

    /// Records an image whose payload was stored (see `Effects::store_image`)
    /// as the newest entry stamped `now`; expiry and the size limit apply,
    /// and the history is to be saved.
    pub fn record_image_at(&mut self, bytes: &[u8], format: ImageFormat, now: u64) -> (r: Effects)
        requires
            app_ok(old(self)@),
        ensures
            final(self)@ == (AppView {
                history: trim_spec(
                    prune_rel(
                        insert_spec(old(self)@.history, image_entry_view(bytes@, format, now)),
                        old(self)@.config.expire_days,
                        now,
                    ),
                    old(self)@.config.history_size as nat,
                ),
                ..old(self)@
            }),
            r@ == (EffectsView { save_history: true, ..no_effects() }),
            app_ok(final(self)@),
    {
        self.history.add_image_at(bytes, format, now);
        self.history.prune_at(self.config.expire_days, now);
        self.history.trim(self.config.history_size);
        let mut r = none();
        r.save_history = true;
        r
    }
}

/// The command the global shortcut runs.
pub open spec fn toggle_command() -> Seq<char> {
    seq!['c', 'l', 'i', 'p', 'i', 't', ' ', '-', '-', 't', 'o', 'g', 'g', 'l', 'e']
}

/// The command the global shortcut runs: `clipit --toggle`.
pub fn toggle_command_string() -> (r: String)
    ensures
        r@ == toggle_command(),
{
    let mut r = String::new();
    let chars = ['c', 'l', 'i', 'p', 'i', 't', ' ', '-', '-', 't', 'o', 'g', 'g', 'l', 'e'];
    let mut i: usize = 0;
    while i < chars.len()
        invariant
            i <= 15,
            r@ == chars@.take(i as int),
        decreases 15 - i,
    {
        r.push(chars[i]);
        i += 1;
        assert(r@ =~= chars@.take(i as int));
    }
    assert(r@ =~= toggle_command());
    r
}

/// Whether the shortcut is already registered: some custom binding spawns
/// `clipit --toggle` (`spawned` holds the commands the custom bindings run).
pub fn shortcut_registered(spawned: &Vec<String>) -> (r: bool)
    ensures
        r == string_views(spawned@).contains(toggle_command()),
{
    let command = toggle_command_string();
    contains_string(spawned, &command)
}

} // verus!
