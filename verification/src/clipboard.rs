//! The clipboard history: a bounded list of clipboard entries, newest
//! first, in which no text stands twice.

use vstd::prelude::*;
use vstd::string::*;
use vstd::utf8::encode_utf8;
use crate::text::{decimal, decimal_text};

verus! {

/// One entry of the clipboard history.
#[derive(Debug)]
pub struct ClipboardItem {
    pub id: String,
    pub content: String,
    pub content_type: String,
    pub created_at: u64,
    pub last_accessed: u64,
    pub access_count: u32,
    pub source: String,
    pub size: usize,
}

/// What an entry holds.
pub ghost struct ClipboardItemView {
    pub id: Seq<char>,
    pub content: Seq<char>,
    pub content_type: Seq<char>,
    pub created_at: u64,
    pub last_accessed: u64,
    pub access_count: u32,
    pub source: Seq<char>,
    pub size: usize,
}

impl View for ClipboardItem {
    type V = ClipboardItemView;

    open spec fn view(&self) -> ClipboardItemView {
        ClipboardItemView {
            id: self.id@,
            content: self.content@,
            content_type: self.content_type@,
            created_at: self.created_at,
            last_accessed: self.last_accessed,
            access_count: self.access_count,
            source: self.source@,
            size: self.size,
        }
    }
}

impl Clone for ClipboardItem {
    /// A copy that holds the same as the entry.
    fn clone(&self) -> (r: Self)
        ensures
            r == *self,
    {
        ClipboardItem {
            id: self.id.clone(),
            content: self.content.clone(),
            content_type: self.content_type.clone(),
            created_at: self.created_at,
            last_accessed: self.last_accessed,
            access_count: self.access_count,
            source: self.source.clone(),
            size: self.size,
        }
    }
}

impl ClipboardItemView {
    /// The entry after one more access at time `at`.
    pub open spec fn accessed(self, at: u64) -> ClipboardItemView {
        ClipboardItemView {
            last_accessed: at,
            access_count: (self.access_count + 1) as u32,
            ..self
        }
    }
}

/// The clipboard history.
#[derive(Debug)]
pub struct ClipboardDatabase {
    pub items: Vec<ClipboardItem>,
    pub max_items: usize,
}

/// What the history holds: its entries, newest first, and its bound.
pub ghost struct ClipboardDatabaseView {
    pub items: Seq<ClipboardItemView>,
    pub max_items: usize,
}

/// The views of a list of entries, in order.
pub open spec fn item_views(items: Seq<ClipboardItem>) -> Seq<ClipboardItemView> {
    items.map_values(|i: ClipboardItem| i@)
}

impl View for ClipboardDatabase {
    type V = ClipboardDatabaseView;

    open spec fn view(&self) -> ClipboardDatabaseView {
        ClipboardDatabaseView { items: item_views(self.items@), max_items: self.max_items }
    }
}

/// Whether `i` is the place of the first entry with the given text.
pub open spec fn is_first_with_content(
    items: Seq<ClipboardItemView>,
    content: Seq<char>,
    i: int,
) -> bool {
    &&& 0 <= i < items.len()
    &&& items[i].content == content
    &&& forall|j: int| 0 <= j < i ==> (#[trigger] items[j]).content != content
}

/// Whether `i` is the place of the first entry with the given id.
pub open spec fn is_first_with_id(items: Seq<ClipboardItemView>, id: Seq<char>, i: int) -> bool {
    &&& 0 <= i < items.len()
    &&& items[i].id == id
    &&& forall|j: int| 0 <= j < i ==> (#[trigger] items[j]).id != id
}

/// The entries whose id is not `id`, in their order.
pub open spec fn without_id(items: Seq<ClipboardItemView>, id: Seq<char>) -> Seq<
    ClipboardItemView,
>
    decreases items.len(),
{
    if items.len() == 0 {
        Seq::empty()
    } else if items.last().id == id {
        without_id(items.drop_last(), id)
    } else {
        without_id(items.drop_last(), id).push(items.last())
    }
}

impl ClipboardDatabaseView {
    /// Whether some entry has the given text.
    pub open spec fn has_content(self, content: Seq<char>) -> bool {
        exists|i: int| 0 <= i < self.items.len() && (#[trigger] self.items[i]).content == content
    }

    /// Whether some entry has the given id.
    pub open spec fn has_id(self, id: Seq<char>) -> bool {
        exists|i: int| 0 <= i < self.items.len() && (#[trigger] self.items[i]).id == id
    }

    /// The place of the first entry with the given text.
    pub open spec fn first_with_content(self, content: Seq<char>) -> int {
        choose|i: int| is_first_with_content(self.items, content, i)
    }

    /// The place of the first entry with the given id.
    pub open spec fn first_with_id(self, id: Seq<char>) -> int {
        choose|i: int| is_first_with_id(self.items, id, i)
    }

    /// The history after `item` was copied to the clipboard. Text that is
    /// already there is counted as accessed at the new entry's time, and
    /// the new entry is dropped; other text goes to the front, and the
    /// oldest entries beyond the bound fall off.
    pub open spec fn add_item(self, item: ClipboardItemView) -> ClipboardDatabaseView {
        if self.has_content(item.content) {
            let i = self.first_with_content(item.content);
            ClipboardDatabaseView {
                items: self.items.update(i, self.items[i].accessed(item.created_at)),
                ..self
            }
        } else if self.items.len() + 1 > self.max_items {
            ClipboardDatabaseView {
                items: (seq![item] + self.items).take(self.max_items as int),
                ..self
            }
        } else {
            ClipboardDatabaseView { items: seq![item] + self.items, ..self }
        }
    }

    /// The history after the first entry with the given id was accessed at
    /// time `now`; unchanged where no entry has that id.
    pub open spec fn update_access(self, id: Seq<char>, now: u64) -> ClipboardDatabaseView {
        if self.has_id(id) {
            let i = self.first_with_id(id);
            ClipboardDatabaseView { items: self.items.update(i, self.items[i].accessed(now)), ..self }
        } else {
            self
        }
    }

    /// The history without the entries that have the given id.
    pub open spec fn delete_item(self, id: Seq<char>) -> ClipboardDatabaseView {
        ClipboardDatabaseView { items: without_id(self.items, id), ..self }
    }

    /// Whether counting one more access of the text overflows no counter.
    pub open spec fn can_count_content(self, content: Seq<char>) -> bool {
        self.has_content(content) ==> self.items[self.first_with_content(content)].access_count
            < u32::MAX
    }

    /// Whether counting one more access of the id overflows no counter.
    pub open spec fn can_count_id(self, id: Seq<char>) -> bool {
        self.has_id(id) ==> self.items[self.first_with_id(id)].access_count < u32::MAX
    }
}

/// Whether no text stands in the list twice.
pub open spec fn distinct_contents(items: Seq<ClipboardItemView>) -> bool {
    forall|i: int, j: int|
        0 <= i < items.len() && 0 <= j < items.len() && i != j ==> (#[trigger] items[i]).content
            != (#[trigger] items[j]).content
}

/// Recording a copy keeps a history within its bound, and keeps it free of
/// repeated text.
pub proof fn lemma_add_item_keeps_order(db: ClipboardDatabaseView, item: ClipboardItemView)
    ensures
        db.items.len() <= db.max_items ==> db.add_item(item).items.len() <= db.max_items,
        db.add_item(item).max_items == db.max_items,
        distinct_contents(db.items) ==> distinct_contents(db.add_item(item).items),
{
    let after = db.add_item(item).items;
    if db.has_content(item.content) {
        let k = choose|k: int|
            0 <= k < db.items.len() && (#[trigger] db.items[k]).content == item.content;
        lemma_first_exists(db.items, item.content, k);
        assert(is_first_with_content(db.items, item.content, db.first_with_content(item.content)));
        assert(after.len() == db.items.len());
    } else {
        assert((seq![item] + db.items).len() == db.items.len() + 1);
        if db.items.len() + 1 > db.max_items {
            assert(after.len() == db.max_items);
        }
    }
    if distinct_contents(db.items) {
        if db.has_content(item.content) {
            assert forall|a: int, b: int|
                0 <= a < after.len() && 0 <= b < after.len() && a != b implies (
            #[trigger] after[a]).content != (#[trigger] after[b]).content by {
                assert(after[a].content == db.items[a].content);
                assert(after[b].content == db.items[b].content);
            }
        } else {
            let whole = seq![item] + db.items;
            assert forall|a: int, b: int|
                0 <= a < whole.len() && 0 <= b < whole.len() && a != b implies (
            #[trigger] whole[a]).content != (#[trigger] whole[b]).content by {
                if a > 0 {
                    assert(whole[a] == db.items[a - 1]);
                }
                if b > 0 {
                    assert(whole[b] == db.items[b - 1]);
                }
            }
            assert forall|a: int, b: int|
                0 <= a < after.len() && 0 <= b < after.len() && a != b implies (
            #[trigger] after[a]).content != (#[trigger] after[b]).content by {
                assert(after[a] == whole[a]);
                assert(after[b] == whole[b]);
            }
        }
    }
}

/// Where some entry has the text, one is the first that has it.
pub proof fn lemma_first_exists(items: Seq<ClipboardItemView>, content: Seq<char>, k: int)
    requires
        0 <= k < items.len(),
        items[k].content == content,
    ensures
        exists|i: int| is_first_with_content(items, content, i),
    decreases k,
{
    if exists|j: int| 0 <= j < k && (#[trigger] items[j]).content == content {
        let j = choose|j: int| 0 <= j < k && (#[trigger] items[j]).content == content;
        lemma_first_exists(items, content, j);
    } else {
        assert(is_first_with_content(items, content, k));
    }
}

impl ClipboardDatabase {
    /// An empty history that keeps at most `max_items` entries.
    pub fn new(max_items: usize) -> (r: Self)
        ensures
            r@.items == Seq::<ClipboardItemView>::empty(),
            r@.max_items == max_items,
    {
        let r = ClipboardDatabase { items: Vec::new(), max_items };
        assert(r@.items =~= Seq::empty());
        r
    }

    /// The place of the first entry with the given text, if there is one.
    pub fn find_content(&self, content: &String) -> (r: Option<usize>)
        ensures
            r.is_some() == self@.has_content(content@),
            r matches Some(i) ==> is_first_with_content(self@.items, content@, i as int)
                && self@.first_with_content(content@) == i,
    {
        let mut i: usize = 0;
        while i < self.items.len()
            invariant
                i <= self.items@.len(),
                forall|j: int| 0 <= j < i ==> (#[trigger] self@.items[j]).content != content@,
            decreases self.items@.len() - i,
        {
            if self.items[i].content == *content {
                assert(self@.items[i as int].content == content@);
                assert(is_first_with_content(self@.items, content@, i as int));
                return Some(i);
            }
            i += 1;
        }
        None
    }

    /// The place of the first entry with the given id, if there is one.
    pub fn find_id(&self, id: &str) -> (r: Option<usize>)
        ensures
            r.is_some() == self@.has_id(id@),
            r matches Some(i) ==> is_first_with_id(self@.items, id@, i as int)
                && self@.first_with_id(id@) == i,
    {
        let wanted = id.to_owned();
        let mut i: usize = 0;
        while i < self.items.len()
            invariant
                wanted@ == id@,
                i <= self.items@.len(),
                forall|j: int| 0 <= j < i ==> (#[trigger] self@.items[j]).id != id@,
            decreases self.items@.len() - i,
        {
            if self.items[i].id == wanted {
                assert(self@.items[i as int].id == id@);
                assert(is_first_with_id(self@.items, id@, i as int));
                return Some(i);
            }
            i += 1;
        }
        None
    }

    /// Records that `item` was copied to the clipboard.
    pub fn add_item(&mut self, item: ClipboardItem)
        requires
            old(self)@.can_count_content(item@.content),
        ensures
            final(self)@ == old(self)@.add_item(item@),
    {
        match self.find_content(&item.content) {
            Some(i) => {
                self.items[i].last_accessed = item.created_at;
                self.items[i].access_count += 1;
                assert(self@.items =~= old(self)@.items.update(
                    i as int,
                    old(self)@.items[i as int].accessed(item.created_at),
                ));
            },
            None => {
                let ghost added = item@;
                self.items.insert(0, item);
                assert(item_views(self.items@) =~= seq![added] + old(self)@.items);
                if self.items.len() > self.max_items {
                    self.items.truncate(self.max_items);
                    assert(item_views(self.items@) =~= (seq![added] + old(self)@.items).take(
                        self.max_items as int,
                    ));
                }
            },
        }
    }

    /// A copy of the entries, newest first.
    pub fn get_items(&self) -> (r: Vec<ClipboardItem>)
        ensures
            r@ == self.items@,
    {
        let mut r: Vec<ClipboardItem> = Vec::new();
        let mut i: usize = 0;
        while i < self.items.len()
            invariant
                i <= self.items@.len(),
                r@ == self.items@.take(i as int),
            decreases self.items@.len() - i,
        {
            r.push(self.items[i].clone());
            assert(self.items@.take(i + 1) =~= self.items@.take(i as int).push(self.items@[i as int]));
            i += 1;
        }
        assert(self.items@.take(self.items@.len() as int) =~= self.items@);
        r
    }

    /// Records an access, at time `now`, of the first entry with the given
    /// id.
    pub fn update_access(&mut self, id: &str, now: u64)
        requires
            old(self)@.can_count_id(id@),
        ensures
            final(self)@ == old(self)@.update_access(id@, now),
    {
        match self.find_id(id) {
            Some(i) => {
                self.items[i].last_accessed = now;
                self.items[i].access_count += 1;
                assert(self@.items =~= old(self)@.items.update(
                    i as int,
                    old(self)@.items[i as int].accessed(now),
                ));
            },
            None => {},
        }
    }

    /// Removes every entry with the given id.
    pub fn delete_item(&mut self, id: &str)
        ensures
            final(self)@ == old(self)@.delete_item(id@),
    {
        let wanted = id.to_owned();
        let ghost all = self@.items;
        let ghost mut seen: int = 0;
        let mut i: usize = 0;
        while i < self.items.len()
            invariant
                wanted@ == id@,
                all == old(self)@.items,
                self.max_items == old(self).max_items,
                0 <= seen <= all.len(),
                i <= self.items@.len(),
                i == without_id(all.take(seen), id@).len(),
                self@.items == without_id(all.take(seen), id@) + all.skip(seen),
            decreases all.len() - seen,
        {
            assert(self@.items[i as int] == all[seen]);
            assert(all.take(seen + 1).drop_last() =~= all.take(seen));
            if self.items[i].id == wanted {
                let ghost kept = without_id(all.take(seen), id@);
                let ghost before = self@.items;
                assert(all.take(seen + 1).last().id == id@);
                assert(without_id(all.take(seen + 1), id@) == kept);
                let _ = self.items.remove(i);
                assert(item_views(self.items@) =~= before.remove(i as int));
                assert(before.remove(i as int) =~= kept + all.skip(seen + 1));
            } else {
                assert(all.take(seen + 1).last().id != id@);
                assert(self@.items =~= without_id(all.take(seen + 1), id@) + all.skip(seen + 1));
                i += 1;
            }
            proof {
                seen = seen + 1;
            }
        }
        assert(all.take(all.len() as int) =~= all);
        assert(self@.items =~= without_id(all, id@));
    }

    /// Removes every entry.
    pub fn clear_all(&mut self)
        ensures
            final(self)@.items == Seq::<ClipboardItemView>::empty(),
            final(self)@.max_items == old(self)@.max_items,
    {
        self.items.clear();
        assert(self@.items =~= Seq::empty());
    }
}

/// The text of a new random identifier: `uuid::Uuid::new_v4`, written in
/// its hyphenated form of 36 characters. Which identifier it is, is not
/// known.
#[verifier::external_body]
fn fresh_uuid_text() -> (r: String)
    ensures
        r@.len() == 36,
{
    uuid::Uuid::new_v4().to_string()
}

/// The id of an entry made at `timestamp` with the unique part `unique`.
pub open spec fn entry_id(timestamp: u64, unique: Seq<char>) -> Seq<char> {
    decimal_text(timestamp as nat) + seq!['-'] + unique
}

/// The entry for text `content` seen at `timestamp`.
pub open spec fn entry_for(
    content: Seq<char>,
    timestamp: u64,
    unique: Seq<char>,
) -> ClipboardItemView {
    ClipboardItemView {
        id: entry_id(timestamp, unique),
        content,
        content_type: "text"@,
        created_at: timestamp,
        last_accessed: timestamp,
        access_count: 0,
        source: "system"@,
        size: encode_utf8(content).len() as usize,
    }
}

/// The id of an entry: the timestamp in decimal, a hyphen, the unique part.
pub fn clipboard_item_id(timestamp: u64, unique: &str) -> (r: String)
    ensures
        r@ == entry_id(timestamp, unique@),
{
    let mut r = decimal(timestamp);
    r.push('-');
    r.append(unique);
    assert(r@ =~= entry_id(timestamp, unique@));
    r
}

/// The entry for text seen on the system clipboard at `timestamp`: plain
/// text, never accessed, its size the length of the text in bytes.
pub fn clipboard_entry(content: String, timestamp: u64, unique: &str) -> (r: ClipboardItem)
    ensures
        r@ == entry_for(content@, timestamp, unique@),
{
    let size = content.as_str().len();
    ClipboardItem {
        id: clipboard_item_id(timestamp, unique),
        content,
        content_type: "text".to_owned(),
        created_at: timestamp,
        last_accessed: timestamp,
        access_count: 0,
        source: "system".to_owned(),
        size,
    }
}

/// Whether text read from the clipboard is news: not empty and not what was
/// read last.
pub open spec fn is_news(last: Seq<char>, content: Seq<char>) -> bool {
    content != last && content.len() > 0
}

/// One step of the clipboard watch, given what was read last and what is
/// read now: news becomes the text read last and yields the entry to
/// record, under a fresh id; anything else yields nothing.
pub fn observe_clipboard(last_content: &mut String, content: String, timestamp: u64) -> (r: Option<
    ClipboardItem,
>)
    ensures
        r.is_some() == is_news(old(last_content)@, content@),
        r.is_some() ==> final(last_content)@ == content@,
        r.is_none() ==> final(last_content)@ == old(last_content)@,
        r matches Some(item) ==> exists|unique: Seq<char>|
            unique.len() == 36 && item@ == entry_for(content@, timestamp, unique),
{
    if content != *last_content && !content.as_str().is_empty() {
        *last_content = content.clone();
        let unique = fresh_uuid_text();
        Some(clipboard_entry(content, timestamp, unique.as_str()))
    } else {
        None
    }
}

} // verus!
