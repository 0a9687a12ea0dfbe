//! The file browser's list: which items of a directory it shows and in
//! what order.

use vstd::prelude::*;
use vstd::multiset::Multiset;
use crate::text::chars_of;
use crate::paths::{file_name_of, parent_path, paths_equal, path_file_name, path_parent, same_path};

verus! {

broadcast use vstd::seq_lib::group_to_multiset_ensures;

/// `a` sorts before `b` character by character, a proper prefix first.
/// On the UTF-8 bytes of two names this is the order of their bytes.
pub open spec fn text_before(a: Seq<char>, b: Seq<char>) -> bool
    decreases a.len(),
{
    if a.len() == 0 {
        b.len() > 0
    } else if b.len() == 0 {
        false
    } else if a[0] != b[0] {
        (a[0] as u32) < (b[0] as u32)
    } else {
        text_before(a.drop_first(), b.drop_first())
    }
}

proof fn lemma_text_before_irreflexive(a: Seq<char>)
    ensures
        !text_before(a, a),
    decreases a.len(),
{
    if a.len() > 0 {
        lemma_text_before_irreflexive(a.drop_first());
    }
}

proof fn lemma_text_before_transitive(a: Seq<char>, b: Seq<char>, c: Seq<char>)
    requires
        text_before(a, b),
        text_before(b, c),
    ensures
        text_before(a, c),
    decreases a.len(),
{
    if a.len() > 0 && b.len() > 0 && c.len() > 0 {
        if a[0] == b[0] && b[0] == c[0] {
            lemma_text_before_transitive(a.drop_first(), b.drop_first(), c.drop_first());
        }
    }
}

/// Whether `a` sorts before `b` in `text_before` order.
pub fn text_less(a: &[char], b: &[char]) -> (r: bool)
    ensures
        r == text_before(a@, b@),
{
    let mut i: usize = 0;
    assert(a@.skip(0) =~= a@);
    assert(b@.skip(0) =~= b@);
    while i < a.len() && i < b.len() && a[i] == b[i]
        invariant
            i <= a@.len(),
            i <= b@.len(),
            text_before(a@, b@) == text_before(a@.skip(i as int), b@.skip(i as int)),
        decreases a@.len() - i,
    {
        assert(a@.skip(i + 1) =~= a@.skip(i as int).drop_first());
        assert(b@.skip(i + 1) =~= b@.skip(i as int).drop_first());
        i = i + 1;
    }
    let ghost x = a@.skip(i as int);
    let ghost y = b@.skip(i as int);
    if i == a.len() {
        assert(x.len() == 0);
        i < b.len()
    } else if i == b.len() {
        false
    } else {
        assert(x[0] == a@[i as int] && y[0] == b@[i as int]);
        (a[i] as u32) < (b[i] as u32)
    }
}

/// A file or directory in the browser.
pub struct FileEntry {
    pub path: String,
    pub is_dir: bool,
}

/// A browser entry as its text.
pub struct EntryModel {
    pub path: Seq<char>,
    pub is_dir: bool,
}

impl View for FileEntry {
    type V = EntryModel;

    open spec fn view(&self) -> EntryModel {
        EntryModel { path: self.path@, is_dir: self.is_dir }
    }
}

/// An item of a directory as the file system reported it: its path,
/// whether it is a directory, and whether the reader can show it.
pub struct ListedItem {
    pub path: String,
    pub is_dir: bool,
    pub supported: bool,
}

/// A listed item as its text.
pub struct ListedModel {
    pub path: Seq<char>,
    pub is_dir: bool,
    pub supported: bool,
}

impl View for ListedItem {
    type V = ListedModel;

    open spec fn view(&self) -> ListedModel {
        ListedModel { path: self.path@, is_dir: self.is_dir, supported: self.supported }
    }
}

/// The entries as their texts.
pub open spec fn entry_views(entries: Seq<FileEntry>) -> Seq<EntryModel> {
    entries.map_values(|e: FileEntry| e@)
}

/// The listed items as their texts.
pub open spec fn listed_views(items: Seq<ListedItem>) -> Seq<ListedModel> {
    items.map_values(|e: ListedItem| e@)
}

/// The entry is the parent of the directory being browsed.
pub open spec fn is_parent_entry(e: EntryModel, parent: Option<Seq<char>>) -> bool {
    e.is_dir && (parent matches Some(p) && paths_equal(p, e.path))
}

/// The browser's order: the parent directory first, then directories,
/// then files, each group by path.
pub open spec fn entry_before(a: EntryModel, b: EntryModel, parent: Option<Seq<char>>) -> bool {
    let pa = is_parent_entry(a, parent);
    let pb = is_parent_entry(b, parent);
    if pa != pb {
        pa
    } else if a.is_dir != b.is_dir {
        a.is_dir
    } else {
        text_before(a.path, b.path)
    }
}

/// No entry sorts before itself.
pub proof fn lemma_entry_before_irreflexive(a: EntryModel, parent: Option<Seq<char>>)
    ensures
        !entry_before(a, a, parent),
{
    lemma_text_before_irreflexive(a.path);
}

/// The browser's order is transitive.
pub proof fn lemma_entry_before_transitive(
    a: EntryModel,
    b: EntryModel,
    c: EntryModel,
    parent: Option<Seq<char>>,
)
    requires
        entry_before(a, b, parent),
        entry_before(b, c, parent),
    ensures
        entry_before(a, c, parent),
{
    if is_parent_entry(a, parent) == is_parent_entry(b, parent) && is_parent_entry(b, parent)
        == is_parent_entry(c, parent) && a.is_dir == b.is_dir && b.is_dir == c.is_dir {
        lemma_text_before_transitive(a.path, b.path, c.path);
    }
}

/// No entry is followed by one that sorts before it.
pub open spec fn in_browser_order(entries: Seq<EntryModel>, parent: Option<Seq<char>>) -> bool {
    forall|i: int, j: int|
        0 <= i < j < entries.len() ==> !entry_before(#[trigger] entries[j], #[trigger] entries[i], parent)
}

fn parent_flag(e: &FileEntry, parent: &Option<String>) -> (r: bool)
    ensures
        r == is_parent_entry(e@, match parent { Some(p) => Some(p@), None => None }),
{
    match parent {
        Some(p) => e.is_dir && same_path(p.as_str(), e.path.as_str()),
        None => false,
    }
}

fn entry_precedes(a: &FileEntry, b: &FileEntry, parent: &Option<String>) -> (r: bool)
    ensures
        r == entry_before(a@, b@, match parent { Some(p) => Some(p@), None => None }),
{
    let pa = parent_flag(a, parent);
    let pb = parent_flag(b, parent);
    if pa != pb {
        pa
    } else if a.is_dir != b.is_dir {
        a.is_dir
    } else {
        text_less(&chars_of(a.path.as_str()), &chars_of(b.path.as_str()))
    }
}

/// Sorts entries into the browser's order.
pub fn sort_entries(items: Vec<FileEntry>, parent: &Option<String>) -> (r: Vec<FileEntry>)
    ensures
        entry_views(r@).to_multiset() == entry_views(items@).to_multiset(),
        in_browser_order(entry_views(r@), match parent { Some(p) => Some(p@), None => None }),
{
    let ghost p = match parent {
        Some(p) => Some(p@),
        None => None,
    };
    let ghost all = entry_views(items@);
    let mut rest = items;
    let mut out: Vec<FileEntry> = Vec::new();
    assert(entry_views(out@) =~= Seq::<EntryModel>::empty());
    assert(entry_views(out@).to_multiset() =~= Multiset::empty());
    while rest.len() > 0
        invariant
            p == (match parent { Some(q) => Some(q@), None => None }),
            entry_views(out@).to_multiset().add(entry_views(rest@).to_multiset()) == all.to_multiset(),
            in_browser_order(entry_views(out@), p),
            forall|i: int, j: int|
                0 <= i < out@.len() && 0 <= j < rest@.len() ==> !entry_before(
                    #[trigger] rest@[j]@,
                    #[trigger] out@[i]@,
                    p,
                ),
        decreases rest@.len(),
    {
        let mut best: usize = 0;
        let mut k: usize = 1;
        proof {
            lemma_entry_before_irreflexive(rest@[0]@, p);
        }
        while k < rest.len()
            invariant
                p == (match parent { Some(q) => Some(q@), None => None }),
                best < k <= rest@.len(),
                forall|j: int| 0 <= j < k ==> !entry_before(#[trigger] rest@[j]@, rest@[best as int]@, p),
            decreases rest@.len() - k,
        {
            if entry_precedes(&rest[k], &rest[best], parent) {
                proof {
                    let nb = rest@[k as int]@;
                    let ob = rest@[best as int]@;
                    assert forall|j: int| 0 <= j < k + 1 implies !entry_before(
                        #[trigger] rest@[j]@,
                        nb,
                        p,
                    ) by {
                        if j == k {
                            lemma_entry_before_irreflexive(nb, p);
                        } else if entry_before(rest@[j]@, nb, p) {
                            lemma_entry_before_transitive(rest@[j]@, nb, ob, p);
                        }
                    }
                }
                best = k;
            } else {
                proof {
                    lemma_entry_before_irreflexive(rest@[best as int]@, p);
                }
            }
            k = k + 1;
        }
        let ghost old_rest = rest@;
        let ghost old_out = out@;
        let e = rest.remove(best);
        proof {
            assert(entry_views(rest@) =~= entry_views(old_rest).remove(best as int));
            assert(entry_views(old_rest)[best as int] == e@);
        }
        out.push(e);
        proof {
            assert(entry_views(out@) =~= entry_views(old_out).push(e@));
            let ov = entry_views(old_out);
            let rv = entry_views(old_rest);
            assert(entry_views(out@).to_multiset() =~= ov.to_multiset().insert(e@));
            assert(entry_views(rest@).to_multiset() =~= rv.to_multiset().remove(e@));
            assert(rv.to_multiset().count(e@) > 0) by {
                assert(rv[best as int] == e@);
                assert(rv.contains(e@));
            }
            assert(entry_views(out@).to_multiset().add(entry_views(rest@).to_multiset()) =~= all.to_multiset());
            assert forall|i: int, j: int|
                0 <= i < j < entry_views(out@).len() implies !entry_before(
                #[trigger] entry_views(out@)[j],
                #[trigger] entry_views(out@)[i],
                p,
            ) by {
                if j == old_out.len() {
                    assert(old_rest[best as int] == e);
                } else {
                    assert(entry_views(out@)[j] == entry_views(old_out)[j]);
                    assert(entry_views(out@)[i] == entry_views(old_out)[i]);
                }
            }
            assert forall|i: int, j: int|
                0 <= i < out@.len() && 0 <= j < rest@.len() implies !entry_before(
                #[trigger] rest@[j]@,
                #[trigger] out@[i]@,
                p,
            ) by {
                let oj = if j < best { j } else { j + 1 };
                assert(rest@[j] == old_rest[oj]);
                if i == old_out.len() {
                    assert(out@[i] == e);
                    assert(!entry_before(old_rest[oj]@, old_rest[best as int]@, p));
                } else {
                    assert(out@[i] == old_out[i]);
                }
            }
        }
    }
    proof {
        assert(entry_views(rest@) =~= Seq::<EntryModel>::empty());
        assert(entry_views(rest@).to_multiset() =~= Multiset::empty());
        assert(entry_views(out@).to_multiset().add(Multiset::empty()) =~= entry_views(out@).to_multiset());
    }
    out
}


/// The item is hidden: its file name starts with a dot.
pub open spec fn is_hidden(path: Seq<char>) -> bool {
    match file_name_of(path) {
        Some(name) => name.len() > 0 && name[0] == '.',
        None => false,
    }
}

/// The listed items the browser offers, in listing order: those that are
/// not hidden and are directories or documents the reader can show.
pub open spec fn shown_items(items: Seq<ListedModel>) -> Seq<EntryModel>
    decreases items.len(),
{
    if items.len() == 0 {
        seq![]
    } else {
        let rest = shown_items(items.drop_last());
        let item = items.last();
        if !is_hidden(item.path) && (item.is_dir || item.supported) {
            rest.push(EntryModel { path: item.path, is_dir: item.is_dir })
        } else {
            rest
        }
    }
}

/// The browser's entries before sorting: the shown items, plus the parent
/// directory when `dir` has one that differs from it.
pub open spec fn browser_candidates(dir: Seq<char>, items: Seq<ListedModel>) -> Seq<EntryModel> {
    match parent_path(dir) {
        Some(p) => if !paths_equal(p, dir) {
            shown_items(items).push(EntryModel { path: p, is_dir: true })
        } else {
            shown_items(items)
        },
        None => shown_items(items),
    }
}

fn starts_hidden(path: &str) -> (r: bool)
    ensures
        r == is_hidden(path@),
{
    match path_file_name(path) {
        Some(name) => {
            let chars = chars_of(name.as_str());
            chars.len() > 0 && chars[0] == '.'
        },
        None => false,
    }
}

/// The entries the browser shows for directory `dir` with the given
/// listing, in the browser's order.
pub fn browser_entries(dir: &str, items: &Vec<ListedItem>) -> (r: Vec<FileEntry>)
    ensures
        entry_views(r@).to_multiset() == browser_candidates(dir@, listed_views(items@)).to_multiset(),
        in_browser_order(entry_views(r@), parent_path(dir@)),
{
    let ghost all = listed_views(items@);
    let mut shown: Vec<FileEntry> = Vec::new();
    let mut i: usize = 0;
    while i < items.len()
        invariant
            i <= items@.len(),
            all == listed_views(items@),
            entry_views(shown@) == shown_items(all.take(i as int)),
        decreases items@.len() - i,
    {
        let item = &items[i];
        let ghost before = shown@;
        assert(all.take(i + 1).drop_last() =~= all.take(i as int));
        assert(all.take(i + 1).last() == item@);
        if !starts_hidden(item.path.as_str()) && (item.is_dir || item.supported) {
            shown.push(FileEntry { path: item.path.clone(), is_dir: item.is_dir });
            assert(entry_views(shown@) =~= entry_views(before).push(
                EntryModel { path: item.path@, is_dir: item.is_dir },
            ));
        }
        i = i + 1;
    }
    assert(all.take(i as int) =~= all);
    let parent = path_parent(dir);
    if let Some(p) = &parent {
        if !same_path(p.as_str(), dir) {
            let ghost before = shown@;
            shown.push(FileEntry { path: p.clone(), is_dir: true });
            assert(entry_views(shown@) =~= entry_views(before).push(
                EntryModel { path: p@, is_dir: true },
            ));
        }
    }
    sort_entries(shown, &parent)
}


/// In the browser's order the parent directory, when listed, comes first,
/// and directories come before files.
pub proof fn lemma_browser_order_groups(entries: Seq<EntryModel>, parent: Option<Seq<char>>)
    requires
        in_browser_order(entries, parent),
    ensures
        forall|j: int|
            0 <= j < entries.len() && is_parent_entry(#[trigger] entries[j], parent)
                ==> is_parent_entry(entries[0], parent),
        forall|i: int, j: int|
            0 <= i < j < entries.len() && !is_parent_entry(entries[i], parent)
                && #[trigger] entries[j].is_dir ==> #[trigger] entries[i].is_dir,
{
    assert forall|j: int|
        0 <= j < entries.len() && is_parent_entry(#[trigger] entries[j], parent) implies is_parent_entry(
        entries[0],
        parent,
    ) by {
        if j > 0 {
            assert(!entry_before(entries[j], entries[0], parent));
        }
    }
    assert forall|i: int, j: int|
        0 <= i < j < entries.len() && !is_parent_entry(entries[i], parent)
            && #[trigger] entries[j].is_dir implies #[trigger] entries[i].is_dir by {
        assert(!entry_before(entries[j], entries[i], parent));
    }
}

/// The browser never offers hidden items, nor files the reader cannot
/// show: every shown item is a visible directory or a supported document.
pub proof fn lemma_shown_items_are_visible(items: Seq<ListedModel>)
    ensures
        forall|k: int|
            0 <= k < shown_items(items).len() ==> !is_hidden(#[trigger] shown_items(items)[k].path)
                && (shown_items(items)[k].is_dir || exists|j: int|
                0 <= j < items.len() && items[j].path == shown_items(items)[k].path
                    && items[j].supported),
    decreases items.len(),
{
    if items.len() > 0 {
        let rest = items.drop_last();
        lemma_shown_items_are_visible(rest);
        assert forall|k: int|
            0 <= k < shown_items(items).len() implies !is_hidden(
            #[trigger] shown_items(items)[k].path,
        ) && (shown_items(items)[k].is_dir || exists|j: int|
            0 <= j < items.len() && items[j].path == shown_items(items)[k].path
                && items[j].supported) by {
            if k < shown_items(rest).len() {
                assert(shown_items(items)[k] == shown_items(rest)[k]);
                if !shown_items(rest)[k].is_dir {
                    let j = choose|j: int|
                        0 <= j < rest.len() && rest[j].path == shown_items(rest)[k].path
                            && rest[j].supported;
                    assert(items[j] == rest[j]);
                }
            } else {
                assert(items[items.len() - 1] == items.last());
            }
        }
    }
}

} // verus!
