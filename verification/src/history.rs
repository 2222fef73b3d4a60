//! Clipboard history: the entry model, content-hash ids, and the operations
//! on the newest-first list.
use vstd::prelude::*;

use crate::clipboard::{ext_spec, ImageFormat};
use crate::text::{
    chars_of, contains_seq, decimal, hex_digits, lemma_hex_digits_len, lowercase, lowercase_of, push_decimal,
    push_hex, contains_chars, string_views, trim_string, trimmed,
};

verus! {

/// Skip clipboard contents bigger than this (bytes).
pub const MAX_ENTRY_BYTES: usize = 100_000;

/// Skip images bigger than this (bytes).
pub const MAX_IMAGE_BYTES: usize = 4_000_000;

/// Seconds in a day.
pub const SECS_PER_DAY: u64 = 86_400;

/// Wraps `SystemTime::elapsed` on the Unix epoch: whole seconds since the
/// epoch, or 0 when the clock reads before it. Nothing is promised of the
/// value.
#[verifier::external_body]
pub(crate) fn now_secs() -> u64 {
    std::time::UNIX_EPOCH.elapsed().map(|d| d.as_secs()).unwrap_or(0)
}

#[derive(Clone, Copy, Debug, Default, PartialEq, Eq, Structural)]
pub enum Kind {
    #[default]
    Text,
    Image,
}

#[derive(Debug)]
pub struct Entry {
    pub id: String,
    pub text: String,
    /// The `text/html` form of the text, when the source offered one.
    pub html: Option<String>,
    /// File name (inside the clipit data dir) of the image payload.
    pub image: Option<String>,
    pub kind: Kind,
    pub pinned: bool,
    pub ts: u64,
}

fn clone_opt_string(s: &Option<String>) -> (r: Option<String>)
    ensures
        r == *s,
{
    match s {
        Some(s) => Some(s.clone()),
        None => None,
    }
}

impl Clone for Entry {
    fn clone(&self) -> (r: Self)
        ensures
            r == *self,
    {
        Entry {
            id: self.id.clone(),
            text: self.text.clone(),
            html: clone_opt_string(&self.html),
            image: clone_opt_string(&self.image),
            kind: self.kind,
            pinned: self.pinned,
            ts: self.ts,
        }
    }
}

/// What an entry holds, as plain values.
pub struct EntryView {
    pub id: Seq<char>,
    pub text: Seq<char>,
    pub html: Option<Seq<char>>,
    pub image: Option<Seq<char>>,
    pub kind: Kind,
    pub pinned: bool,
    pub ts: u64,
}

pub open spec fn opt_view(s: Option<String>) -> Option<Seq<char>> {
    match s {
        Some(s) => Some(s@),
        None => None,
    }
}

impl View for Entry {
    type V = EntryView;

    open spec fn view(&self) -> EntryView {
        EntryView {
            id: self.id@,
            text: self.text@,
            html: opt_view(self.html),
            image: opt_view(self.image),
            kind: self.kind,
            pinned: self.pinned,
            ts: self.ts,
        }
    }
}

/// The views of a sequence of entries.
pub open spec fn views(s: Seq<Entry>) -> Seq<EntryView> {
    s.map_values(|e: Entry| e@)
}

/// `e` with its pin flag set to `pinned`.
pub open spec fn with_pinned(e: EntryView, pinned: bool) -> EntryView {
    EntryView { pinned: pinned, ..e }
}

/// Index of the first entry of `s` whose id is `id`.
pub open spec fn first_with_id(s: Seq<EntryView>, id: Seq<char>) -> Option<int>
    decreases s.len(),
{
    if s.len() == 0 {
        None
    } else {
        match first_with_id(s.drop_last(), id) {
            Some(i) => Some(i),
            None => if s.last().id == id {
                Some(s.len() - 1)
            } else {
                None
            },
        }
    }
}

/// The entries of `s` whose id is not `id`, in order.
pub open spec fn without_id(s: Seq<EntryView>, id: Seq<char>) -> Seq<EntryView> {
    s.filter(|e: EntryView| e.id != id)
}

/// The pin flag an entry keeps when it is (re)inserted into `s`: that of the
/// first entry with the same id, if any.
pub open spec fn pinned_after(s: Seq<EntryView>, e: EntryView) -> bool {
    match first_with_id(s, e.id) {
        Some(i) => s[i].pinned,
        None => e.pinned,
    }
}

/// `e` as the newest entry of `s`: every entry with its id is removed, and it
/// keeps the pin of the first of them.
pub open spec fn insert_spec(s: Seq<EntryView>, e: EntryView) -> Seq<EntryView> {
    seq![with_pinned(e, pinned_after(s, e))] + without_id(s, e.id)
}

/// Every entry with id `id` has its pin flipped.
pub open spec fn toggle_pin_spec(s: Seq<EntryView>, id: Seq<char>) -> Seq<EntryView> {
    s.map_values(|e: EntryView| if e.id == id { with_pinned(e, !e.pinned) } else { e })
}

/// The entries of `s` whose pin flag is `want`, in order.
pub open spec fn with_pin(s: Seq<EntryView>, want: bool) -> Seq<EntryView> {
    s.filter(|e: EntryView| e.pinned == want)
}

pub open spec fn pinned_of(s: Seq<EntryView>) -> Seq<EntryView> {
    with_pin(s, true)
}

pub open spec fn unpinned_of(s: Seq<EntryView>) -> Seq<EntryView> {
    with_pin(s, false)
}

/// Keep every pinned entry and the first `max` unpinned ones.
pub open spec fn trim_spec(s: Seq<EntryView>, max: nat) -> Seq<EntryView>
    decreases s.len(),
{
    if s.len() == 0 {
        s
    } else {
        let prev = trim_spec(s.drop_last(), max);
        if s.last().pinned || unpinned_of(s.drop_last()).len() < max {
            prev.push(s.last())
        } else {
            prev
        }
    }
}

/// Keep the pinned entries and those stamped at or after `cutoff`.
pub open spec fn prune_keep(s: Seq<EntryView>, cutoff: u64) -> Seq<EntryView> {
    s.filter(|e: EntryView| e.pinned || e.ts >= cutoff)
}

/// The oldest time stamp that survives an expiry of `days` at time `now`;
/// 0 (keep everything) when the expiry reaches back before the epoch.
pub open spec fn cutoff_spec(now: u64, days: u64) -> u64 {
    if now >= days * 86_400 {
        (now - days * 86_400) as u64
    } else {
        0
    }
}

/// Display order: pinned first, recency kept inside each group.
pub open spec fn display_spec(s: Seq<EntryView>) -> Seq<EntryView> {
    pinned_of(s) + unpinned_of(s)
}

/// FNV-1a, 64 bit, over `bytes`.
pub open spec fn fnv1a(bytes: Seq<u8>) -> u64
    decreases bytes.len(),
{
    if bytes.len() == 0 {
        0xcbf29ce484222325
    } else {
        (fnv1a(bytes.drop_last()) ^ (bytes.last() as u64)).wrapping_mul(0x100000001b3)
    }
}

/// The id of content with these bytes: 16 lower-case hex digits of its
/// FNV-1a hash.
pub open spec fn hash_hex_spec(bytes: Seq<u8>) -> Seq<char> {
    hex_digits(fnv1a(bytes) as nat, 16)
}

/// The id of a text entry.
pub open spec fn text_id(text: Seq<char>) -> Seq<char> {
    hash_hex_spec(vstd::utf8::encode_utf8(text))
}

/// Some ignore pattern, trimmed and non-empty, occurs in the text, both
/// compared in lower case.
pub open spec fn pattern_blocks(text: Seq<char>, pattern: Seq<char>) -> bool {
    &&& trimmed(pattern).len() > 0
    &&& contains_seq(lowercase_of(text), lowercase_of(trimmed(pattern)))
}

pub open spec fn ignored(text: Seq<char>, patterns: Seq<Seq<char>>) -> bool {
    exists|j: int| 0 <= j < patterns.len() && pattern_blocks(text, #[trigger] patterns[j])
}

/// Relative age label at time `now`; empty for entries without a stamp.
pub open spec fn rel_time_spec(ts: u64, now: u64) -> Seq<char> {
    if ts == 0 {
        seq![]
    } else {
        let secs: nat = if now >= ts { (now - ts) as nat } else { 0 };
        if secs < 60 {
            seq!['n', 'o', 'w']
        } else if secs < 3600 {
            decimal(secs / 60).push('m')
        } else if secs < 86_400 {
            decimal(secs / 3600).push('h')
        } else {
            decimal(secs / 86_400).push('d')
        }
    }
}

/// A text entry for `text` recorded at `now`, before it is inserted.
pub open spec fn text_entry_view(text: Seq<char>, html: Option<Seq<char>>, now: u64) -> EntryView {
    EntryView { id: text_id(text), text, html, image: None, kind: Kind::Text, pinned: false, ts: now }
}

/// The payload file name of an image: its id, a dot and the extension of
/// its format.
pub open spec fn image_file_spec(bytes: Seq<u8>, format: ImageFormat) -> Seq<char> {
    hash_hex_spec(bytes) + seq!['.'] + ext_spec(format)
}

/// An image entry for `bytes` in `format` recorded at `now`, before it is
/// inserted.
pub open spec fn image_entry_view(bytes: Seq<u8>, format: ImageFormat, now: u64) -> EntryView {
    EntryView {
        id: hash_hex_spec(bytes),
        text: seq![],
        html: None,
        image: Some(image_file_spec(bytes, format)),
        kind: Kind::Image,
        pinned: false,
        ts: now,
    }
}

/// An entry read back from disk with its missing id and time stamp filled in.
pub open spec fn repaired(e: EntryView, now: u64) -> EntryView {
    EntryView {
        id: if e.id.len() == 0 { text_id(e.text) } else { e.id },
        ts: if e.ts == 0 { now } else { e.ts },
        ..e
    }
}

/// The entries read back from disk, repaired, without the image entries
/// whose payload is not present.
pub open spec fn repair_spec(s: Seq<EntryView>, present: Seq<bool>, now: u64) -> Seq<EntryView>
    decreases s.len(),
{
    if s.len() == 0 {
        s
    } else {
        let prev = repair_spec(s.drop_last(), present, now);
        if s.last().kind == Kind::Text || present[s.len() - 1] {
            prev.push(repaired(s.last(), now))
        } else {
            prev
        }
    }
}

/// FNV-1a 64-bit: dependency-free, stable across runs.
fn crc64(bytes: &[u8]) -> (hash: u64)
    ensures
        hash == fnv1a(bytes@),
{
    let mut hash: u64 = 0xcbf29ce484222325;
    let mut i: usize = 0;
    while i < bytes.len()
        invariant
            i <= bytes.len(),
            hash == fnv1a(bytes@.take(i as int)),
        decreases bytes.len() - i,
    {
        assert(bytes@.take(i + 1).drop_last() =~= bytes@.take(i as int));
        hash = (hash ^ (bytes[i] as u64)).wrapping_mul(0x100000001b3);
        i += 1;
    }
    assert(bytes@.take(bytes.len() as int) =~= bytes@);
    hash
}

/// Content id: the 64-bit FNV-1a hash of `bytes` as 16 lower-case hex digits.
pub fn hash_hex(bytes: &[u8]) -> (r: String)
    ensures
        r@ == hash_hex_spec(bytes@),
        r@.len() == 16,
{
    let mut s = String::new();
    push_hex(&mut s, crc64(bytes), 16);
    proof {
        lemma_hex_digits_len(fnv1a(bytes@) as nat, 16);
        assert(s@ =~= hash_hex_spec(bytes@));
    }
    s
}

/// The characterisation of `first_with_id`: the first matching index, or no
/// match at all.
pub proof fn lemma_first_with_id(s: Seq<EntryView>, id: Seq<char>)
    ensures
        match first_with_id(s, id) {
            Some(i) => 0 <= i < s.len() && s[i].id == id && forall|j: int|
                0 <= j < i ==> #[trigger] s[j].id != id,
            None => forall|j: int| 0 <= j < s.len() ==> #[trigger] s[j].id != id,
        },
    decreases s.len(),
{
    if s.len() > 0 {
        lemma_first_with_id(s.drop_last(), id);
        assert forall|j: int| 0 <= j < s.len() - 1 implies s.drop_last()[j] == s[j] by {}
    }
}

/// Clipboard history, stored newest-first. Pinned entries are shown first.
#[derive(Clone, Debug)]
pub struct History {
    pub entries: Vec<Entry>,
}

impl View for History {
    type V = Seq<EntryView>;

    open spec fn view(&self) -> Seq<EntryView> {
        views(self.entries@)
    }
}

impl Default for History {
    fn default() -> (r: Self)
        ensures
            r@ == Seq::<EntryView>::empty(),
    {
        let r = History { entries: Vec::new() };
        assert(r@ =~= Seq::<EntryView>::empty());
        r
    }
}

/// The entries of `v` whose pin flag is `want`.
fn keep_pinned_eq(v: &Vec<Entry>, want: bool) -> (r: Vec<Entry>)
    ensures
        views(r@) == with_pin(views(v@), want),
{
    let mut r: Vec<Entry> = Vec::new();
    let mut i: usize = 0;
    while i < v.len()
        invariant
            i <= v.len(),
            views(r@) == with_pin(views(v@).take(i as int), want),
        decreases v.len() - i,
    {
        proof {
            reveal(Seq::filter);
        }
        let ghost prefix = views(v@).take(i + 1);
        assert(prefix.drop_last() =~= views(v@).take(i as int));
        assert(prefix.last() == v@[i as int]@);
        if v[i].pinned == want {
            r.push(v[i].clone());
            assert(views(r@) =~= with_pin(views(v@).take(i as int), want).push(v@[i as int]@));
        } else {
            assert(with_pin(prefix, want) == with_pin(views(v@).take(i as int), want));
        }
        i += 1;
    }
    assert(views(v@).take(v.len() as int) =~= views(v@));
    r
}

impl History {
    /// Position of the first entry with id `id`.
    fn position(&self, id: &String) -> (r: Option<usize>)
        ensures
            match r {
                Some(p) => first_with_id(self@, id@) == Some(p as int),
                None => first_with_id(self@, id@) is None,
            },
    {
        let mut i: usize = 0;
        while i < self.entries.len()
            invariant
                i <= self.entries.len(),
                forall|j: int| 0 <= j < i ==> #[trigger] self@[j].id != id@,
            decreases self.entries.len() - i,
        {
            assert(self@[i as int] == self.entries@[i as int]@);
            if self.entries[i].id == *id {
                proof {
                    lemma_first_with_id(self@, id@);
                    assert(self@[i as int].id == id@);
                }
                return Some(i);
            }
            i += 1;
        }
        proof {
            lemma_first_with_id(self@, id@);
        }
        None
    }

    /// Puts `entry` first, dropping every other entry with its id; it keeps
    /// the pin of the first entry it replaces.
    fn insert(&mut self, entry: Entry)
        ensures
            final(self)@ == insert_spec(old(self)@, entry@),
    {
        let ghost e0 = entry@;
        let mut entry = entry;
        let ghost old_view = self@;
        proof {
            lemma_first_with_id(self@, entry.id@);
        }
        if let Some(pos) = self.position(&entry.id) {
            entry.pinned = self.entries[pos].pinned;
        }
        let mut kept: Vec<Entry> = Vec::new();
        let mut i: usize = 0;
        while i < self.entries.len()
            invariant
                i <= self.entries.len(),
                self@ == old_view,
                views(kept@) == without_id(old_view.take(i as int), entry.id@),
            decreases self.entries.len() - i,
        {
            proof {
                reveal(Seq::filter);
            }
            let ghost prefix = old_view.take(i + 1);
            assert(prefix.drop_last() =~= old_view.take(i as int));
            assert(prefix.last() == self.entries@[i as int]@);
            if self.entries[i].id != entry.id {
                kept.push(self.entries[i].clone());
                assert(views(kept@) =~= without_id(old_view.take(i as int), entry.id@).push(
                    old_view[i as int],
                ));
            } else {
                assert(without_id(prefix, entry.id@) == without_id(old_view.take(i as int), entry.id@));
            }
            i += 1;
        }
        assert(old_view.take(self.entries.len() as int) =~= old_view);
        kept.insert(0, entry);
        self.entries = kept;
        proof {
            lemma_first_with_id(old_view, e0.id);
            assert(entry@ == with_pinned(e0, pinned_after(old_view, e0)));
            assert(self@ =~= insert_spec(old_view, e0));
        }
    }
}

/// The entries of `v` that are pinned or stamped at or after `cutoff`.
fn keep_recent(v: &Vec<Entry>, cutoff: u64) -> (r: Vec<Entry>)
    ensures
        views(r@) == prune_keep(views(v@), cutoff),
{
    let mut r: Vec<Entry> = Vec::new();
    let mut i: usize = 0;
    while i < v.len()
        invariant
            i <= v.len(),
            views(r@) == prune_keep(views(v@).take(i as int), cutoff),
        decreases v.len() - i,
    {
        proof {
            reveal(Seq::filter);
        }
        let ghost prefix = views(v@).take(i + 1);
        assert(prefix.drop_last() =~= views(v@).take(i as int));
        assert(prefix.last() == v@[i as int]@);
        if v[i].pinned || v[i].ts >= cutoff {
            r.push(v[i].clone());
            assert(views(r@) =~= prune_keep(views(v@).take(i as int), cutoff).push(v@[i as int]@));
        } else {
            assert(prune_keep(prefix, cutoff) == prune_keep(views(v@).take(i as int), cutoff));
        }
        i += 1;
    }
    assert(views(v@).take(v.len() as int) =~= views(v@));
    r
}

/// The payload file name for image bytes in `format`: the content id, a
/// dot and the format's extension.
pub fn image_file_for(bytes: &[u8], format: ImageFormat) -> (r: String)
    ensures
        r@ == image_file_spec(bytes@, format),
{
    let mut file = hash_hex(bytes);
    file.push('.');
    let ext = format.ext();
    let chars = chars_of(ext.as_str());
    let ghost base = file@;
    let mut i: usize = 0;
    while i < chars.len()
        invariant
            i <= chars@.len(),
            file@ == base + chars@.take(i as int),
        decreases chars.len() - i,
    {
        file.push(chars[i]);
        i += 1;
        assert(file@ =~= base + chars@.take(i as int));
    }
    assert(chars@.take(chars@.len() as int) =~= chars@);
    assert(file@ =~= image_file_spec(bytes@, format));
    file
}

impl History {
    /// Add text, with its HTML form when there is one, as the newest entry
    /// stamped `now`, unless it matches an ignore pattern. Returns whether
    /// the entry was recorded.
    pub fn add_text_at(
        &mut self,
        text: String,
        html: Option<String>,
        ignore: &[String],
        now: u64,
    ) -> (recorded: bool)
        ensures
            recorded == !ignored(text@, string_views(ignore@)),
            recorded ==> final(self)@ == insert_spec(
                old(self)@,
                text_entry_view(text@, opt_view(html), now),
            ),
            !recorded ==> final(self)@ == old(self)@,
    {
        let lower = lowercase(text.as_str());
        let mut i: usize = 0;
        while i < ignore.len()
            invariant
                i <= ignore.len(),
                lower@ == lowercase_of(text@),
                forall|j: int| 0 <= j < i ==> !pattern_blocks(text@, #[trigger] string_views(ignore@)[j]),
            decreases ignore.len() - i,
        {
            let p = trim_string(ignore[i].as_str());
            if !p.as_str().is_empty() {
                let pl = lowercase(p.as_str());
                if contains_chars(lower.as_str(), pl.as_str()) {
                    assert(pattern_blocks(text@, string_views(ignore@)[i as int]));
                    return false;
                }
            }
            i += 1;
        }
        let id = hash_hex(text.as_str().as_bytes());
        let ghost html_view = opt_view(html);
        let entry = Entry { id, text, html, image: None, kind: Kind::Text, pinned: false, ts: now };
        assert(entry@ == text_entry_view(entry.text@, html_view, now));
        self.insert(entry);
        true
    }

    /// Add text as the newest entry, unless it matches an ignore pattern.
    /// Returns whether the entry was recorded; it is stamped with the clock.
    pub fn add_text(&mut self, text: String, ignore: &[String]) -> (recorded: bool)
        ensures
            recorded == !ignored(text@, string_views(ignore@)),
            recorded ==> exists|now: u64|
                final(self)@ == insert_spec(old(self)@, #[trigger] text_entry_view(text@, None, now)),
            !recorded ==> final(self)@ == old(self)@,
    {
        let now = now_secs();
        self.add_text_at(text, None, ignore, now)
    }

    /// Record image bytes in `format`, whose payload is stored, as the
    /// newest entry stamped `now`.
    pub fn add_image_at(&mut self, bytes: &[u8], format: ImageFormat, now: u64)
        ensures
            final(self)@ == insert_spec(old(self)@, image_entry_view(bytes@, format, now)),
    {
        let id = hash_hex(bytes);
        let file = image_file_for(bytes, format);
        let entry = Entry {
            id,
            text: String::new(),
            html: None,
            image: Some(file),
            kind: Kind::Image,
            pinned: false,
            ts: now,
        };
        assert(entry@ == image_entry_view(bytes@, format, now));
        self.insert(entry);
    }

    /// Removes the first entry with id `id` and hands it back.
    pub fn delete(&mut self, id: &str) -> (r: Option<Entry>)
        ensures
            match first_with_id(old(self)@, id@) {
                Some(i) => r matches Some(e) && e@ == old(self)@[i] && final(self)@ == old(
                    self,
                )@.remove(i),
                None => r is None && final(self)@ == old(self)@,
            },
    {
        let key = id.to_owned();
        assert(key@ == id@);
        proof {
            lemma_first_with_id(self@, id@);
        }
        match self.position(&key) {
            Some(pos) => {
                let ghost before = self.entries@;
                let e = self.entries.remove(pos);
                assert(self@ =~= views(before).remove(pos as int));
                assert(e@ == views(before)[pos as int]);
                Some(e)
            },
            None => None,
        }
    }

    /// Re-add a previously deleted entry at the front (undo).
    pub fn restore(&mut self, entry: Entry)
        ensures
            final(self)@ == insert_spec(old(self)@, entry@),
    {
        self.insert(entry);
    }

    /// Flips the pin of every entry with id `id`.
    pub fn toggle_pin(&mut self, id: &str)
        ensures
            final(self)@ == toggle_pin_spec(old(self)@, id@),
    {
        let ghost old_view = self@;
        let key = id.to_owned();
        let mut r: Vec<Entry> = Vec::new();
        let mut i: usize = 0;
        while i < self.entries.len()
            invariant
                i <= self.entries.len(),
                self@ == old_view,
                key@ == id@,
                r@.len() == i,
                forall|j: int| 0 <= j < i ==> (#[trigger] r@[j])@ == toggle_pin_spec(old_view, id@)[j],
            decreases self.entries.len() - i,
        {
            let mut e = self.entries[i].clone();
            if e.id == key {
                e.pinned = !e.pinned;
            }
            r.push(e);
            i += 1;
        }
        self.entries = r;
        assert(self@ =~= toggle_pin_spec(old_view, id@));
    }

    /// Remove unpinned entries; pinned entries survive.
    pub fn clear(&mut self)
        ensures
            final(self)@ == pinned_of(old(self)@),
    {
        self.entries = keep_pinned_eq(&self.entries, true);
    }

    /// Keep at most `max` unpinned entries; pinned entries never trimmed.
    pub fn trim(&mut self, max: usize)
        ensures
            final(self)@ == trim_spec(old(self)@, max as nat),
    {
        let ghost old_view = self@;
        let mut r: Vec<Entry> = Vec::new();
        let mut unpinned: usize = 0;
        let mut i: usize = 0;
        while i < self.entries.len()
            invariant
                i <= self.entries.len(),
                self@ == old_view,
                unpinned <= i,
                unpinned == unpinned_of(old_view.take(i as int)).len(),
                views(r@) == trim_spec(old_view.take(i as int), max as nat),
            decreases self.entries.len() - i,
        {
            proof {
                reveal(Seq::filter);
            }
            let ghost prefix = old_view.take(i + 1);
            assert(prefix.drop_last() =~= old_view.take(i as int));
            assert(prefix.last() == self.entries@[i as int]@);
            if self.entries[i].pinned {
                r.push(self.entries[i].clone());
                assert(views(r@) =~= trim_spec(old_view.take(i as int), max as nat).push(
                    prefix.last(),
                ));
            } else {
                unpinned += 1;
                if unpinned <= max {
                    r.push(self.entries[i].clone());
                    assert(views(r@) =~= trim_spec(old_view.take(i as int), max as nat).push(
                        prefix.last(),
                    ));
                }
            }
            i += 1;
        }
        assert(old_view.take(self.entries.len() as int) =~= old_view);
        self.entries = r;
    }

    /// Drop unpinned entries older than `expire_days` before `now` (0
    /// disables).
    pub fn prune_at(&mut self, expire_days: u64, now: u64)
        ensures
            expire_days == 0 ==> final(self)@ == old(self)@,
            expire_days != 0 ==> final(self)@ == prune_keep(
                old(self)@,
                cutoff_spec(now, expire_days),
            ),
    {
        if expire_days == 0 {
            return;
        }
        // An expiry longer than the clock can count keeps every entry.
        let span = if expire_days > u64::MAX / SECS_PER_DAY {
            u64::MAX
        } else {
            expire_days * SECS_PER_DAY
        };
        let cutoff = now.saturating_sub(span);
        self.entries = keep_recent(&self.entries, cutoff);
    }

    /// Drop unpinned entries older than `expire_days` (0 disables), as the
    /// clock reads now.
    pub fn prune(&mut self, expire_days: u64)
        ensures
            expire_days == 0 ==> final(self)@ == old(self)@,
            expire_days != 0 ==> exists|now: u64|
                final(self)@ == prune_keep(old(self)@, #[trigger] cutoff_spec(now, expire_days)),
    {
        let now = now_secs();
        self.prune_at(expire_days, now);
    }

    /// Display order: pinned first (most recent first inside each group).
    pub fn display(&self) -> (r: Vec<Entry>)
        ensures
            views(r@) == display_spec(self@),
    {
        let mut pinned = keep_pinned_eq(&self.entries, true);
        let mut rest = keep_pinned_eq(&self.entries, false);
        let ghost a = pinned@;
        let ghost b = rest@;
        pinned.append(&mut rest);
        assert(views(pinned@) =~= views(a) + views(b));
        pinned
    }

    pub fn total(&self) -> (r: usize)
        ensures
            r == self@.len(),
    {
        self.entries.len()
    }

    /// The first entry with id `id`.
    pub fn get(&self, id: &str) -> (r: Option<&Entry>)
        ensures
            match first_with_id(self@, id@) {
                Some(i) => r matches Some(e) && e@ == self@[i],
                None => r is None,
            },
    {
        let key = id.to_owned();
        assert(key@ == id@);
        proof {
            lemma_first_with_id(self@, id@);
        }
        match self.position(&key) {
            Some(pos) => {
                assert(self@[pos as int] == self.entries@[pos as int]@);
                Some(&self.entries[pos])
            },
            None => None,
        }
    }

    pub fn pinned_count(&self) -> (r: usize)
        ensures
            r == pinned_of(self@).len(),
    {
        let mut count: usize = 0;
        let mut i: usize = 0;
        while i < self.entries.len()
            invariant
                i <= self.entries.len(),
                count <= i,
                count == pinned_of(self@.take(i as int)).len(),
            decreases self.entries.len() - i,
        {
            proof {
                reveal(Seq::filter);
            }
            let ghost prefix = self@.take(i + 1);
            assert(prefix.drop_last() =~= self@.take(i as int));
            assert(prefix.last() == self.entries@[i as int]@);
            if self.entries[i].pinned {
                count += 1;
            }
            i += 1;
        }
        assert(self@.take(self.entries.len() as int) =~= self@);
        count
    }

    /// Fixes up entries read back from disk: backfills missing ids (from the
    /// text) and time stamps (with `now`), and drops image entries whose
    /// payload is not present (`image_present[i]` for entry `i`).
    pub fn repair(&mut self, now: u64, image_present: &[bool])
        requires
            image_present@.len() == old(self)@.len(),
        ensures
            final(self)@ == repair_spec(old(self)@, image_present@, now),
    {
        let ghost old_view = self@;
        let mut r: Vec<Entry> = Vec::new();
        let mut i: usize = 0;
        while i < self.entries.len()
            invariant
                i <= self.entries.len(),
                self@ == old_view,
                image_present@.len() == old_view.len(),
                views(r@) == repair_spec(old_view.take(i as int), image_present@, now),
            decreases self.entries.len() - i,
        {
            let ghost prefix = old_view.take(i + 1);
            assert(prefix.drop_last() =~= old_view.take(i as int));
            assert(prefix.last() == self.entries@[i as int]@);
            if self.entries[i].kind == Kind::Text || image_present[i] {
                let mut e = self.entries[i].clone();
                if e.id.as_str().is_empty() {
                    e.id = hash_hex(e.text.as_str().as_bytes());
                }
                if e.ts == 0 {
                    e.ts = now;
                }
                r.push(e);
                assert(views(r@) =~= repair_spec(old_view.take(i as int), image_present@, now).push(
                    repaired(prefix.last(), now),
                ));
            }
            i += 1;
        }
        assert(old_view.take(self.entries.len() as int) =~= old_view);
        self.entries = r;
    }
}

/// Relative age label at time `now`; empty for entries without a timestamp.
pub fn rel_time_at(ts: u64, now: u64) -> (r: String)
    ensures
        r@ == rel_time_spec(ts, now),
{
    let mut r = String::new();
    if ts == 0 {
        return r;
    }
    let secs = now.saturating_sub(ts);
    if secs < 60 {
        r.push('n');
        r.push('o');
        r.push('w');
    } else if secs < 3600 {
        push_decimal(&mut r, secs / 60);
        r.push('m');
    } else if secs < 86_400 {
        push_decimal(&mut r, secs / 3600);
        r.push('h');
    } else {
        push_decimal(&mut r, secs / 86_400);
        r.push('d');
    }
    assert(r@ =~= rel_time_spec(ts, now));
    r
}

/// Relative age label, as the clock reads now; empty for entries without a
/// timestamp.
pub fn rel_time(ts: u64) -> (r: String)
    ensures
        exists|now: u64| r@ == #[trigger] rel_time_spec(ts, now),
{
    let now = now_secs();
    rel_time_at(ts, now)
}

/// A name that stays inside the directory it is joined to: not empty, not
/// `.` or `..`, and without a path separator (so not absolute either).
pub open spec fn plain_file_name(f: Seq<char>) -> bool {
    &&& f.len() > 0
    &&& f != seq!['.']
    &&& f != seq!['.', '.']
    &&& !f.contains('/')
}

/// `part` joined to `base` as `Path::join` joins a relative component:
/// `part` alone after an empty `base`, no separator added after one that
/// ends in `/`, one `/` between them otherwise.
pub open spec fn join_spec(base: Seq<char>, part: Seq<char>) -> Seq<char> {
    if base.len() == 0 {
        part
    } else if base.last() == '/' {
        base + part
    } else {
        base + seq!['/'] + part
    }
}

/// The payload path of image file `file` inside the data dir `dir`:
/// `dir`, joined with `images`, joined with `file`.
pub open spec fn image_path_spec(dir: Seq<char>, file: Seq<char>) -> Seq<char> {
    join_spec(join_spec(dir, seq!['i', 'm', 'a', 'g', 'e', 's']), file)
}

/// Appends a relative component to a path held as characters.
fn join_chars(base: &mut Vec<char>, part: &Vec<char>)
    ensures
        final(base)@ == join_spec(old(base)@, part@),
{
    if base.len() > 0 && base[base.len() - 1] != '/' {
        base.push('/');
    }
    let ghost start = base@;
    let mut i: usize = 0;
    while i < part.len()
        invariant
            i <= part@.len(),
            base@ == start + part@.take(i as int),
        decreases part.len() - i,
    {
        base.push(part[i]);
        i += 1;
        assert(base@ =~= start + part@.take(i as int));
    }
    assert(part@.take(part@.len() as int) =~= part@);
    assert(base@ =~= join_spec(old(base)@, part@));
}

/// Whether `f` is a plain file name.
fn is_plain_file_name(f: &str) -> (r: bool)
    ensures
        r == plain_file_name(f@),
{
    let chars = chars_of(f);
    if chars.len() == 0 {
        return false;
    }
    if chars.len() == 1 && chars[0] == '.' {
        assert(chars@ =~= seq!['.']);
        return false;
    }
    if chars.len() == 2 && chars[0] == '.' && chars[1] == '.' {
        assert(chars@ =~= seq!['.', '.']);
        return false;
    }
    assert(chars@ != seq!['.']) by {
        if chars@.len() == 1 {
            assert(chars@[0] == seq!['.'][0] ==> chars@ =~= seq!['.']);
        }
    }
    assert(chars@ != seq!['.', '.']) by {
        if chars@.len() == 2 {
            assert(chars@[0] == '.' && chars@[1] == '.' ==> chars@ =~= seq!['.', '.']);
        }
    }
    let mut i: usize = 0;
    while i < chars.len()
        invariant
            i <= chars@.len(),
            chars@ == f@,
            forall|j: int| 0 <= j < i ==> chars@[j] != '/',
        decreases chars.len() - i,
    {
        if chars[i] == '/' {
            assert(chars@[i as int] == '/');
            assert(chars@.contains('/'));
            return false;
        }
        i += 1;
    }
    true
}

/// The payload path of an image inside the data dir `dir`: `dir` joined
/// with `images` and `f` (as `Path::join` joins), for a plain file name `f`;
/// `None` when the entry names no file, or a name that would reach outside
/// the images directory.
pub fn image_path(dir: &str, file: Option<&str>) -> (r: Option<String>)
    ensures
        r is Some <==> (file matches Some(f) && plain_file_name(f@)),
        r matches Some(p) ==> p@ == image_path_spec(dir@, file->0@),
{
    match file {
        Some(f) => {
            if !is_plain_file_name(f) {
                return None;
            }
            let mut path = chars_of(dir);
            let images = vec!['i', 'm', 'a', 'g', 'e', 's'];
            assert(images@ =~= seq!['i', 'm', 'a', 'g', 'e', 's']);
            join_chars(&mut path, &images);
            join_chars(&mut path, &chars_of(f));
            let mut p = String::new();
            let mut i: usize = 0;
            while i < path.len()
                invariant
                    i <= path@.len(),
                    p@ == path@.take(i as int),
                decreases path.len() - i,
            {
                p.push(path[i]);
                i += 1;
                assert(p@ =~= path@.take(i as int));
            }
            assert(path@.take(path@.len() as int) =~= path@);
            Some(p)
        },
        None => None,
    }
}

} // verus!
