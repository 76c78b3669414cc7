//! The files below a directory.

use vstd::prelude::*;
use vstd::string::*;

use crate::order::{
    before, in_order, lemma_placed, lemma_placed_mapped, mapped, placed, seconds, slot, Rank,
    RankView, Sorter,
};
use crate::path::{
    front_of, is_absolute, is_bare_drive, is_free, is_plain, is_sep, is_verbatim, join,
    lemma_absolute_below, separator, Platform,
};
use crate::text::{cat2, chars_of, same, starts_with, texts};

verus! {

/// How deep a walk goes.
pub const WALK_DEPTH: u32 = 12;

/// After how many files a walk looks into no further directory.
pub const WALK_FILES: usize = 20_000;

/// Tells whether a walk passes over something because of its name.
pub open spec fn ignored(name: Seq<char>) -> bool {
    name == ".git"@ || name == "node_modules"@ || name == "target"@ || name == "dist"@ || name
        == "build"@ || name == ".noTerm"@
}

/// Tells whether a walk passes over something because of its name.
pub fn is_ignored_name(name: &str) -> (r: bool)
    ensures
        r == ignored(name@),
{
    same(name, ".git") || same(name, "node_modules") || same(name, "target") || same(name, "dist")
        || same(name, "build") || same(name, ".noTerm")
}

/// One item of a listing.
#[derive(Debug, PartialEq)]
pub enum WalkItem {
    /// The item could not be read.
    Fault(String),
    Entry { name: String, path: String, is_dir: bool },
}

/// What an item stands for.
pub enum ItemView {
    Fault(Seq<char>),
    Entry { name: Seq<char>, path: Seq<char>, is_dir: bool },
}

impl View for WalkItem {
    type V = ItemView;

    open spec fn view(&self) -> ItemView {
        match self {
            WalkItem::Fault(e) => ItemView::Fault(e@),
            WalkItem::Entry { name, path, is_dir } => ItemView::Entry {
                name: name@,
                path: path@,
                is_dir: *is_dir,
            },
        }
    }
}

/// The views of a listing.
pub open spec fn item_views(v: Seq<WalkItem>) -> Seq<ItemView> {
    Seq::new(v.len(), |i: int| v[i]@)
}

/// The view of a listing that may be missing.
pub open spec fn listing_view(l: Option<Vec<WalkItem>>) -> Option<Seq<ItemView>> {
    match l {
        Some(v) => Some(item_views(v@)),
        None => None,
    }
}

/// What the directories list; nothing where one cannot be read.
pub type Disk = spec_fn(Seq<char>) -> Option<Seq<ItemView>>;

/// Tells whether a walk that has found some files looks into a directory at a
/// depth.
pub open spec fn looks_into(depth: int, found: Seq<Seq<char>>) -> bool {
    depth <= WALK_DEPTH && found.len() <= WALK_FILES
}

/// The files that a walk has found once it is through with a directory, or the
/// item that could not be read.
pub open spec fn walked(disk: Disk, dir: Seq<char>, depth: int, found: Seq<Seq<char>>) -> Result<
    Seq<Seq<char>>,
    Seq<char>,
>
    decreases 2 * (WALK_DEPTH + 1 - depth) + 1, 0int,
{
    if looks_into(depth, found) {
        match disk(dir) {
            None => Ok(found),
            Some(items) => walked_items(disk, items, 0, depth, found),
        }
    } else {
        Ok(found)
    }
}

/// The files that a walk has found once it is through with a listing, from the
/// item at `i` on, or the item that could not be read.
pub open spec fn walked_items(
    disk: Disk,
    items: Seq<ItemView>,
    i: int,
    depth: int,
    found: Seq<Seq<char>>,
) -> Result<Seq<Seq<char>>, Seq<char>>
    decreases 2 * (WALK_DEPTH + 1 - depth), items.len() - i,
    when 0 <= i && depth <= WALK_DEPTH
{
    if i >= items.len() {
        Ok(found)
    } else {
        match items[i] {
            ItemView::Fault(e) => Err(e),
            ItemView::Entry { name, path, is_dir } => if ignored(name) {
                walked_items(disk, items, i + 1, depth, found)
            } else if is_dir {
                match walked(disk, path, depth + 1, found) {
                    Err(e) => Err(e),
                    Ok(more) => walked_items(disk, items, i + 1, depth, more),
                }
            } else {
                walked_items(disk, items, i + 1, depth, found.push(path))
            },
        }
    }
}

/// A directory that a walk is in the middle of.
struct Frame {
    items: Vec<WalkItem>,
    at: usize,
    depth: u32,
}

/// What a directory that a walk is in the middle of stands for.
pub struct FrameView {
    pub items: Seq<ItemView>,
    /// The item that comes next.
    pub at: int,
    pub depth: int,
}

impl Frame {
    spec fn value(&self) -> FrameView {
        FrameView {
            items: item_views(self.items@),
            at: self.at as int,
            depth: self.depth as int,
        }
    }
}

spec fn frame_values(v: Seq<Frame>) -> Seq<FrameView> {
    Seq::new(v.len(), |i: int| v[i].value())
}

/// What is left of a walk that is in the middle of some directories, the last of
/// them being the innermost.
pub open spec fn rest_of(disk: Disk, frames: Seq<FrameView>, found: Seq<Seq<char>>) -> Result<
    Seq<Seq<char>>,
    Seq<char>,
>
    decreases frames.len(),
{
    if frames.len() == 0 {
        Ok(found)
    } else {
        let top = frames.last();
        match walked_items(disk, top.items, top.at, top.depth, found) {
            Err(e) => Err(e),
            Ok(more) => rest_of(disk, frames.drop_last(), more),
        }
    }
}

/// How many listings a walk asks for until it is through with a directory.
pub open spec fn listings(disk: Disk, dir: Seq<char>, depth: int, found: Seq<Seq<char>>) -> nat
    decreases 2 * (WALK_DEPTH + 1 - depth) + 1, 0int,
{
    if looks_into(depth, found) {
        match disk(dir) {
            None => 1,
            Some(items) => 1 + listings_items(disk, items, 0, depth, found),
        }
    } else {
        0
    }
}

/// How many listings a walk asks for until it is through with a listing, from the
/// item at `i` on.
pub open spec fn listings_items(
    disk: Disk,
    items: Seq<ItemView>,
    i: int,
    depth: int,
    found: Seq<Seq<char>>,
) -> nat
    decreases 2 * (WALK_DEPTH + 1 - depth), items.len() - i,
    when 0 <= i && depth <= WALK_DEPTH
{
    if i >= items.len() {
        0
    } else {
        match items[i] {
            ItemView::Fault(_) => 0,
            ItemView::Entry { name, path, is_dir } => if ignored(name) {
                listings_items(disk, items, i + 1, depth, found)
            } else if is_dir {
                listings(disk, path, depth + 1, found) + match walked(
                    disk,
                    path,
                    depth + 1,
                    found,
                ) {
                    Err(_) => 0,
                    Ok(more) => listings_items(disk, items, i + 1, depth, more),
                }
            } else {
                listings_items(disk, items, i + 1, depth, found.push(path))
            },
        }
    }
}

/// How many listings a walk asks for that is in the middle of some directories,
/// the last of them being the innermost.
pub open spec fn listings_rest(disk: Disk, frames: Seq<FrameView>, found: Seq<Seq<char>>) -> nat
    decreases frames.len(),
{
    if frames.len() == 0 {
        0
    } else {
        let top = frames.last();
        listings_items(disk, top.items, top.at, top.depth, found) + match walked_items(
            disk,
            top.items,
            top.at,
            top.depth,
            found,
        ) {
            Err(_) => 0,
            Ok(more) => listings_rest(disk, frames.drop_last(), more),
        }
    }
}

/// A walk over the files below a directory.
pub struct Walk {
    frames: Vec<Frame>,
    found: Vec<String>,
    /// The directory whose listing is asked for, and its depth.
    wanted: Option<(String, u32)>,
}

/// What is to be done next in a walk.
#[derive(Debug, PartialEq)]
pub enum WalkStep {
    /// List a directory.
    List(String),
    /// The walk is over.
    Done(Result<Vec<String>, String>),
}

/// What is said when an item cannot be read.
pub open spec fn walk_failure(e: Seq<char>) -> Seq<char> {
    "Failed to walk directory: "@ + e
}

/// What a walk comes to.
pub open spec fn walk_result(r: Result<Seq<Seq<char>>, Seq<char>>) -> Result<
    Seq<Seq<char>>,
    Seq<char>,
> {
    match r {
        Ok(v) => Ok(v),
        Err(e) => Err(walk_failure(e)),
    }
}

/// The view of what a walk came to.
pub open spec fn files_view(r: Result<Vec<String>, String>) -> Result<Seq<Seq<char>>, Seq<char>> {
    match r {
        Ok(v) => Ok(texts(v@)),
        Err(e) => Err(e@),
    }
}

impl Walk {
    /// Every directory that the walk is in the middle of lies within its depth.
    pub closed spec fn wf(&self) -> bool {
        &&& forall|i: int|
            0 <= i < self.frames@.len() ==> (#[trigger] self.frames@[i]).depth <= WALK_DEPTH
        &&& self.wanted matches Some(w) ==> looks_into(w.1 as int, texts(self.found@))
    }

    /// The directory whose listing is asked for.
    pub closed spec fn wants(&self) -> Option<Seq<char>> {
        match self.wanted {
            Some(w) => Some(w.0@),
            None => None,
        }
    }

    /// What the walk comes to on a disk.
    pub closed spec fn comes_to(&self, disk: Disk) -> Result<Seq<Seq<char>>, Seq<char>> {
        let found = texts(self.found@);
        match self.wanted {
            Some(w) => match walked(disk, w.0@, w.1 as int, found) {
                Err(e) => Err(e),
                Ok(more) => rest_of(disk, frame_values(self.frames@), more),
            },
            None => rest_of(disk, frame_values(self.frames@), found),
        }
    }

    /// How many listings the walk still asks for on a disk.
    pub closed spec fn listings_left(&self, disk: Disk) -> nat {
        let found = texts(self.found@);
        match self.wanted {
            Some(w) => listings(disk, w.0@, w.1 as int, found) + match walked(
                disk,
                w.0@,
                w.1 as int,
                found,
            ) {
                Err(_) => 0,
                Ok(more) => listings_rest(disk, frame_values(self.frames@), more),
            },
            None => listings_rest(disk, frame_values(self.frames@), found),
        }
    }

    /// A walk that begins: the first thing is to list its directory.
    pub fn start(dir: String) -> (r: Self)
        ensures
            r.wf(),
            r.wants() == Some(dir@),
            forall|disk: Disk| #[trigger]
                r.comes_to(disk) == walked(disk, dir@, 0, Seq::empty()),
            forall|disk: Disk| #[trigger]
                r.listings_left(disk) == listings(disk, dir@, 0, Seq::empty()),
    {
        let r = Walk { frames: Vec::new(), found: Vec::new(), wanted: Some((dir, 0)) };
        assert(texts(r.found@) =~= Seq::empty());
        assert(frame_values(r.frames@) =~= Seq::empty());
        r
    }

    /// Goes on with a walk after the listing that was asked for; nothing is given
    /// where the directory cannot be read. With each listing one less is left to
    /// ask for, and the walk is over when none is left.
    pub fn step(&mut self, listing: Option<Vec<WalkItem>>) -> (r: WalkStep)
        requires
            old(self).wf(),
            old(self).wants() is Some,
        ensures
            final(self).wf(),
            match r {
                WalkStep::List(p) => final(self).wants() == Some(p@),
                WalkStep::Done(_) => final(self).wants() is None,
            },
            forall|disk: Disk|
                disk(old(self).wants()->0) == listing_view(listing) ==> walk_result(
                    #[trigger] old(self).comes_to(disk),
                ) == match r {
                    WalkStep::List(_) => walk_result(final(self).comes_to(disk)),
                    WalkStep::Done(v) => files_view(v),
                },
            forall|disk: Disk|
                disk(old(self).wants()->0) == listing_view(listing)
                    ==> #[trigger] old(self).listings_left(disk) == 1 + match r {
                    WalkStep::List(_) => final(self).listings_left(disk),
                    WalkStep::Done(_) => 0,
                },
            r is List ==> forall|disk: Disk| #[trigger] final(self).listings_left(disk) > 0,
    {
        let ghost before = *self;
        let ghost listed = listing_view(listing);
        let ghost dir = self.wants()->0;
        let depth: u32 = match &self.wanted {
            Some(w) => w.1,
            None => 0,
        };
        self.wanted = None;
        match listing {
            Some(items) => {
                let ghost frames0 = self.frames@;
                let f = Frame { items, at: 0, depth };
                self.frames.push(f);
                proof {
                    assert(frame_values(self.frames@) =~= frame_values(frames0).push(f.value()));
                    assert(frame_values(self.frames@).drop_last() =~= frame_values(frames0));
                    assert forall|disk: Disk| disk(dir) == listed implies #[trigger] before.comes_to(
                        disk,
                    ) == self.comes_to(disk) by {}
                    assert forall|disk: Disk|
                        disk(dir) == listed implies #[trigger] before.listings_left(disk) == 1
                        + self.listings_left(disk) by {}
                }
            },
            None => {
                assert forall|disk: Disk| disk(dir) == listed implies #[trigger] before.comes_to(
                    disk,
                ) == self.comes_to(disk) by {}
                assert forall|disk: Disk|
                    disk(dir) == listed implies #[trigger] before.listings_left(disk) == 1
                    + self.listings_left(disk) by {}
            },
        }
        let ghost on = *self;
        let r = self.advance();
        proof {
            assert forall|disk: Disk|
                disk(dir) == listed implies #[trigger] before.listings_left(disk) == 1 + match r {
                WalkStep::List(_) => self.listings_left(disk),
                WalkStep::Done(_) => 0,
            } by {
                assert(before.listings_left(disk) == 1 + on.listings_left(disk));
            }
            assert forall|disk: Disk| disk(dir) == listed implies walk_result(
                #[trigger] before.comes_to(disk),
            ) == match r {
                WalkStep::List(_) => walk_result(self.comes_to(disk)),
                WalkStep::Done(v) => files_view(v),
            } by {
                assert(before.comes_to(disk) == on.comes_to(disk));
            }
        }
        r
    }

    /// Goes on with a walk until a listing is needed or it is over.
    fn advance(&mut self) -> (r: WalkStep)
        requires
            old(self).wf(),
            old(self).wanted is None,
        ensures
            final(self).wf(),
            match r {
                WalkStep::List(p) => final(self).wants() == Some(p@),
                WalkStep::Done(_) => final(self).wants() is None,
            },
            forall|disk: Disk|
                walk_result(#[trigger] old(self).comes_to(disk)) == match r {
                    WalkStep::List(_) => walk_result(final(self).comes_to(disk)),
                    WalkStep::Done(v) => files_view(v),
                },
            forall|disk: Disk| #[trigger]
                old(self).listings_left(disk) == match r {
                    WalkStep::List(_) => final(self).listings_left(disk),
                    WalkStep::Done(_) => 0,
                },
            r is List ==> forall|disk: Disk| #[trigger] final(self).listings_left(disk) > 0,
    {
        let ghost start = *self;
        while self.frames.len() > 0
            invariant
                start == *old(self),
                self.wf(),
                self.wanted is None,
                forall|disk: Disk| #[trigger] start.comes_to(disk) == self.comes_to(disk),
                forall|disk: Disk| #[trigger]
                    start.listings_left(disk) == self.listings_left(disk),
            decreases
                    self.frames@.len(),
                    (if self.frames@.len() > 0 {
                        self.frames@.last().items@.len() - self.frames@.last().at
                    } else {
                        0int
                    }),
        {
            let ghost before = *self;
            let ghost stack = frame_values(self.frames@);
            let n: usize = self.frames.len();
            let at: usize = self.frames[n - 1].at;
            let depth: u32 = self.frames[n - 1].depth;
            let ghost top = stack.last();
            let ghost found = texts(self.found@);
            assert(top == self.frames@[n - 1].value());
            if at >= self.frames[n - 1].items.len() {
                self.frames.pop();
                proof {
                    assert(frame_values(self.frames@) =~= stack.drop_last());
                    assert forall|disk: Disk| #[trigger]
                        start.comes_to(disk) == self.comes_to(disk) by {
                        assert(before.comes_to(disk) == rest_of(disk, stack, found));
                    }
                    assert forall|disk: Disk| #[trigger]
                        start.listings_left(disk) == self.listings_left(disk) by {
                        assert(before.listings_left(disk) == listings_rest(disk, stack, found));
                    }
                }
                continue;
            }
            assert(top.items[at as int] == self.frames@[n - 1].items@[at as int]@);
            let mut file: Option<String> = None;
            let mut dir: Option<String> = None;
            match &self.frames[n - 1].items[at] {
                WalkItem::Fault(e) => {
                    let t = cat2("Failed to walk directory: ", e.as_str());
                    proof {
                        assert forall|disk: Disk| walk_result(#[trigger] start.comes_to(disk))
                            == Err::<Seq<Seq<char>>, Seq<char>>(t@) by {
                            assert(before.comes_to(disk) == rest_of(disk, stack, found));
                        }
                        assert forall|disk: Disk| #[trigger] start.listings_left(disk) == 0 by {
                            assert(before.listings_left(disk) == listings_rest(disk, stack, found));
                        }
                    }
                    return WalkStep::Done(Err(t));
                },
                WalkItem::Entry { name, path, is_dir } => {
                    if !is_ignored_name(name.as_str()) {
                        if *is_dir {
                            dir = Some(path.clone());
                        } else {
                            file = Some(path.clone());
                        }
                    }
                },
            }
            self.frames[n - 1].at = at + 1;
            let ghost next = FrameView { at: at + 1, ..top };
            let ghost moved = stack.drop_last().push(next);
            proof {
                assert(frame_values(self.frames@) =~= moved);
                assert(moved.drop_last() =~= stack.drop_last());
            }
            match file {
                Some(p) => {
                    self.found.push(p);
                    assert(texts(self.found@) =~= found.push(p@));
                },
                None => {},
            }
            match dir {
                Some(p) => {
                    if depth + 1 <= WALK_DEPTH && self.found.len() <= WALK_FILES {
                        let asked = p.clone();
                        self.wanted = Some((p, depth + 1));
                        proof {
                            assert forall|disk: Disk|
                                walk_result(#[trigger] start.comes_to(disk)) == walk_result(
                                    self.comes_to(disk),
                                ) by {
                                assert(before.comes_to(disk) == rest_of(disk, stack, found));
                            }
                            assert forall|disk: Disk| #[trigger]
                                start.listings_left(disk) == self.listings_left(disk) by {
                                assert(before.listings_left(disk) == listings_rest(
                                    disk,
                                    stack,
                                    found,
                                ));
                            }
                        }
                        return WalkStep::List(asked);
                    }
                },
                None => {},
            }
            proof {
                assert(before.frames@[n - 1].depth <= WALK_DEPTH);
                assert forall|disk: Disk| #[trigger]
                    start.comes_to(disk) == self.comes_to(disk) by {
                    assert(before.comes_to(disk) == rest_of(disk, stack, found));
                    match top.items[at as int] {
                        ItemView::Fault(_) => {},
                        ItemView::Entry { name, path, is_dir } => {
                            if !ignored(name) && is_dir {
                                assert(walked(disk, path, depth + 1, found) == Ok::<
                                    Seq<Seq<char>>,
                                    Seq<char>,
                                >(found));
                            }
                        },
                    }
                    assert(walked_items(disk, top.items, top.at, top.depth, found)
                        == walked_items(
                        disk,
                        next.items,
                        next.at,
                        next.depth,
                        texts(self.found@),
                    ));
                    assert(rest_of(disk, moved, texts(self.found@)) == rest_of(
                        disk,
                        stack,
                        found,
                    ));
                }
                assert forall|disk: Disk| #[trigger]
                    start.listings_left(disk) == self.listings_left(disk) by {
                    assert(before.listings_left(disk) == listings_rest(disk, stack, found));
                    match top.items[at as int] {
                        ItemView::Fault(_) => {},
                        ItemView::Entry { name, path, is_dir } => {
                            if !ignored(name) && is_dir {
                                assert(walked(disk, path, depth + 1, found) == Ok::<
                                    Seq<Seq<char>>,
                                    Seq<char>,
                                >(found));
                                assert(listings(disk, path, depth + 1, found) == 0);
                            }
                        },
                    }
                    assert(listings_rest(disk, moved, texts(self.found@)) == listings_rest(
                        disk,
                        stack,
                        found,
                    ));
                }
            }
        }
        let mut out: Vec<String> = Vec::new();
        proof {
            assert(frame_values(self.frames@) =~= Seq::empty());
            assert forall|disk: Disk| walk_result(#[trigger] start.comes_to(disk)) == Ok::<
                Seq<Seq<char>>,
                Seq<char>,
            >(texts(self.found@)) by {
                assert(start.comes_to(disk) == self.comes_to(disk));
            }
            assert forall|disk: Disk| #[trigger] start.listings_left(disk) == 0 by {
                assert(start.listings_left(disk) == self.listings_left(disk));
            }
        }
        std::mem::swap(&mut out, &mut self.found);
        WalkStep::Done(Ok(out))
    }
}

/// The files that a walk finds, in ascending order.
pub open spec fn in_name_order(files: Seq<Seq<char>>) -> Seq<Seq<char>> {
    seconds(ranked_files(files))
}

/// The files with their ranks, in ascending order.
pub open spec fn ranked_files(files: Seq<Seq<char>>) -> Seq<(RankView, Seq<char>)>
    decreases files.len(),
{
    if files.len() == 0 {
        Seq::empty()
    } else {
        placed(
            ranked_files(files.drop_last()),
            RankView { group: 0, text: files.last() },
            files.last(),
        )
    }
}

/// Puts the files that a walk found in ascending order.
pub fn list_files(files: &Vec<String>) -> (r: Vec<String>)
    ensures
        texts(r@) == in_name_order(texts(files@)),
{
    let ghost f = |s: String| s@;
    let ghost all = texts(files@);
    let mut sorter: Sorter<String> = Sorter::new();
    let mut i: usize = 0;
    assert(mapped(sorter@, f) =~= Seq::empty());
    while i < files.len()
        invariant
            i <= files@.len(),
            all == texts(files@),
            f == (|s: String| s@),
            sorter.wf(),
            mapped(sorter@, f) == ranked_files(all.take(i as int)),
        decreases files@.len() - i,
    {
        let ghost before = sorter@;
        let name = files[i].clone();
        let rank = Rank { group: 0, text: chars_of(name.as_str()) };
        proof {
            lemma_placed_mapped(before, rank@, name, f);
            assert(all.take(i + 1).drop_last() =~= all.take(i as int));
            assert(all.take(i + 1).last() == name@);
        }
        sorter.add(rank, name);
        i += 1;
    }
    assert(all.take(i as int) =~= all);
    let items = sorter.into_items();
    assert(texts(items@) =~= seconds(mapped(sorter@, f)));
    items
}

/// Putting files in order neither drops nor adds any, and no file stands behind
/// one that comes after it.
pub proof fn listed_files_are_in_order(files: Seq<Seq<char>>)
    ensures
        ({
            let s = in_name_order(files);
            &&& s.len() == files.len()
            &&& s.to_multiset() == files.to_multiset()
            &&& forall|i: int, j: int| 0 <= i < j < s.len() ==> !before(s[j], s[i])
        }),
    decreases files.len(),
{
    broadcast use vstd::seq_lib::group_to_multiset_ensures;

    let r = ranked_files(files);
    lemma_ranked_files(files);
    let s = in_name_order(files);
    assert forall|i: int, j: int| 0 <= i < j < s.len() implies !before(s[j], s[i]) by {
        assert(!crate::order::rank_before(r[j].0, r[i].0));
    }
    if files.len() > 0 {
        let front = files.drop_last();
        listed_files_are_in_order(front);
        let t = in_name_order(front);
        let q = ranked_files(front);
        let k = RankView { group: 0, text: files.last() };
        lemma_ranked_files(front);
        lemma_placed(q, k, files.last());
        let p = slot(q, k);
        assert(s =~= t.insert(p, files.last()));
        assert(files =~= front.push(files.last()));
    } else {
        assert(s =~= files);
    }
}

proof fn lemma_ranked_files(files: Seq<Seq<char>>)
    ensures
        in_order(ranked_files(files)),
        ranked_files(files).len() == files.len(),
        forall|i: int|
            0 <= i < ranked_files(files).len() ==> (#[trigger] ranked_files(files)[i]).0 == (
            RankView { group: 0, text: ranked_files(files)[i].1 }),
    decreases files.len(),
{
    if files.len() > 0 {
        let front = files.drop_last();
        lemma_ranked_files(front);
        let q = ranked_files(front);
        let k = RankView { group: 0, text: files.last() };
        lemma_placed(q, k, files.last());
        let p = slot(q, k);
        let r = ranked_files(files);
        assert forall|i: int| 0 <= i < r.len() implies (#[trigger] r[i]).0 == (RankView {
            group: 0,
            text: r[i].1,
        }) by {
            if i < p {
                assert(r[i] == q[i]);
            } else if i > p {
                assert(r[i] == q[i - 1]);
            }
        }
    }
}

/// The name of an item.
pub open spec fn item_name(item: ItemView) -> Seq<char> {
    match item {
        ItemView::Fault(_) => Seq::empty(),
        ItemView::Entry { name, .. } => name,
    }
}

/// Tells whether a listing names each of its items once, and by a path that is
/// taken from the directory. A verbatim directory has to be written so that the
/// names can be put behind it as they are.
pub open spec fn well_named(os: Platform, dir: Seq<char>, items: Seq<ItemView>) -> bool {
    &&& forall|i: int|
        0 <= i < items.len() ==> match #[trigger] items[i] {
            ItemView::Fault(_) => false,
            ItemView::Entry { name, path, .. } => {
                &&& is_plain(os, name)
                &&& path == join(os, dir, name)
                &&& is_verbatim(os, dir) ==> path == front_of(os, dir) + name
            },
        }
    &&& forall|i: int, j: int|
        0 <= i < j < items.len() ==> item_name(#[trigger] items[i]) != item_name(
            #[trigger] items[j],
        )
}

/// Tells whether everything below a directory can be read, and no directory that
/// a walk does not pass over lies more than `n` levels down.
pub open spec fn is_tree(os: Platform, disk: Disk, dir: Seq<char>, n: nat) -> bool
    decreases n, 1int,
{
    match disk(dir) {
        None => false,
        Some(items) => {
            &&& well_named(os, dir, items)
            &&& forall|i: int|
                0 <= i < items.len() ==> is_tree_below(os, disk, #[trigger] items[i], n)
        },
    }
}

/// Tells whether everything below an item can be read, and no directory that a
/// walk does not pass over lies `n` or more levels down.
pub open spec fn is_tree_below(os: Platform, disk: Disk, item: ItemView, n: nat) -> bool
    decreases n, 0int,
{
    match item {
        ItemView::Fault(_) => false,
        ItemView::Entry { name, path, is_dir } => is_dir && !ignored(name) ==> n > 0 && is_tree(
            os,
            disk,
            path,
            (n - 1) as nat,
        ),
    }
}

/// All files below a directory, down to `n` levels, but for those that have an
/// ignored name on their way.
pub open spec fn files_below(disk: Disk, dir: Seq<char>, n: nat) -> Seq<Seq<char>>
    decreases n, 1int, 0int,
{
    match disk(dir) {
        None => Seq::empty(),
        Some(items) => files_in(disk, items, items.len() as int, n),
    }
}

/// All files among the first `i` items of a listing and below them.
pub open spec fn files_in(disk: Disk, items: Seq<ItemView>, i: int, n: nat) -> Seq<Seq<char>>
    decreases n, 0int, i,
{
    if i <= 0 {
        Seq::empty()
    } else {
        files_in(disk, items, i - 1, n) + match items[i - 1] {
            ItemView::Fault(_) => Seq::empty(),
            ItemView::Entry { name, path, is_dir } => if ignored(name) {
                Seq::empty()
            } else if !is_dir {
                seq![path]
            } else if n > 0 {
                files_below(disk, path, (n - 1) as nat)
            } else {
                Seq::empty()
            },
        }
    }
}

proof fn lemma_walks_below(
    os: Platform,
    disk: Disk,
    dir: Seq<char>,
    n: nat,
    depth: int,
    found: Seq<Seq<char>>,
)
    requires
        is_tree(os, disk, dir, n),
        depth + n == WALK_DEPTH,
        found.len() + files_below(disk, dir, n).len() <= WALK_FILES,
    ensures
        walked(disk, dir, depth, found) == Ok::<Seq<Seq<char>>, Seq<char>>(
            found + files_below(disk, dir, n),
        ),
    decreases n, 1int, 0int,
{
    let items = disk(dir)->0;
    assert(found + files_in(disk, items, 0, n) =~= found);
    lemma_walks_items(os, disk, dir, items, 0, n, depth, found);
}

proof fn lemma_walks_items(
    os: Platform,
    disk: Disk,
    dir: Seq<char>,
    items: Seq<ItemView>,
    i: int,
    n: nat,
    depth: int,
    found: Seq<Seq<char>>,
)
    requires
        0 <= i <= items.len(),
        well_named(os, dir, items),
        forall|k: int| 0 <= k < items.len() ==> is_tree_below(os, disk, #[trigger] items[k], n),
        depth + n == WALK_DEPTH,
        found.len() + files_in(disk, items, items.len() as int, n).len() <= WALK_FILES,
    ensures
        walked_items(disk, items, i, depth, found + files_in(disk, items, i, n)) == Ok::<
            Seq<Seq<char>>,
            Seq<char>,
        >(found + files_in(disk, items, items.len() as int, n)),
    decreases n, 0int, items.len() - i,
{
    if i < items.len() {
        let so_far = found + files_in(disk, items, i, n);
        lemma_files_grow(disk, items, i + 1, items.len() as int, n);
        lemma_walks_items(os, disk, dir, items, i + 1, n, depth, found);
        assert(is_tree_below(os, disk, items[i], n));
        match items[i] {
            ItemView::Fault(_) => {},
            ItemView::Entry { name, path, is_dir } => {
                let next = found + files_in(disk, items, i + 1, n);
                if ignored(name) {
                    assert(next =~= so_far);
                } else if is_dir {
                    assert(next =~= so_far + files_below(disk, path, (n - 1) as nat));
                    lemma_walks_below(os, disk, path, (n - 1) as nat, depth + 1, so_far);
                } else {
                    assert(next =~= so_far.push(path));
                }
            },
        }
    }
}

proof fn lemma_files_grow(disk: Disk, items: Seq<ItemView>, i: int, j: int, n: nat)
    requires
        0 <= i <= j,
    ensures
        files_in(disk, items, i, n).len() <= files_in(disk, items, j, n).len(),
    decreases j - i,
{
    if i < j {
        lemma_files_grow(disk, items, i, j - 1, n);
    }
}

/// Tells whether a path is, or lies below, what a directory holds under a name.
spec fn lies_under(os: Platform, path: Seq<char>, dir: Seq<char>, name: Seq<char>) -> bool {
    ||| path == front_of(os, dir) + name
    ||| starts_with(path, front_of(os, dir) + name + seq![separator(os)])
}

proof fn lemma_one_name(os: Platform, path: Seq<char>, dir: Seq<char>, a: Seq<char>, b: Seq<char>)
    requires
        lies_under(os, path, dir, a),
        lies_under(os, path, dir, b),
        is_free(os, a),
        is_free(os, b),
    ensures
        a == b,
{
    let f = front_of(os, dir);
    let rest = path.skip(f.len() as int);
    lemma_begins(os, path, f, a);
    lemma_begins(os, path, f, b);
    if a.len() < b.len() {
        assert(rest.take(b.len() as int)[a.len() as int] == rest[a.len() as int]);
        assert(is_sep(os, b[a.len() as int]));
    } else if b.len() < a.len() {
        assert(rest.take(a.len() as int)[b.len() as int] == rest[b.len() as int]);
        assert(is_sep(os, a[b.len() as int]));
    }
}

proof fn lemma_begins(os: Platform, path: Seq<char>, front: Seq<char>, name: Seq<char>)
    requires
        path == front + name || starts_with(path, front + name + seq![separator(os)]),
    ensures
        path.len() >= front.len() + name.len(),
        path.skip(front.len() as int).take(name.len() as int) == name,
        path.len() > front.len() + name.len() ==> path.skip(front.len() as int)[name.len() as int]
            == separator(os),
{
    let rest = path.skip(front.len() as int);
    if path == front + name {
        assert(rest.take(name.len() as int) =~= name);
    } else {
        let whole = front + name + seq![separator(os)];
        assert(path.take(whole.len() as int) == whole);
        assert forall|k: int| 0 <= k < whole.len() implies path[k] == whole[k] by {
            assert(path.take(whole.len() as int)[k] == path[k]);
        }
        assert(rest.take(name.len() as int) =~= name);
    }
}

proof fn lemma_files_lie_below(os: Platform, disk: Disk, dir: Seq<char>, n: nat, k: int)
    requires
        is_tree(os, disk, dir, n),
        dir.len() > 0,
        0 <= k < files_below(disk, dir, n).len(),
    ensures
        starts_with(files_below(disk, dir, n)[k], front_of(os, dir)),
    decreases n, 1int, 0int,
{
    let items = disk(dir)->0;
    let i = lemma_file_has_name(os, disk, dir, items, items.len() as int, n, k);
    let f = files_below(disk, dir, n)[k];
    let whole = front_of(os, dir) + item_name(items[i]);
    if f == whole {
        assert(f.take(front_of(os, dir).len() as int) =~= front_of(os, dir));
    } else {
        let more = whole + seq![separator(os)];
        assert(f.take(front_of(os, dir).len() as int) =~= f.take(more.len() as int).take(
            front_of(os, dir).len() as int,
        ));
        assert(more.take(front_of(os, dir).len() as int) =~= front_of(os, dir));
    }
}

/// The item that a file is, or below which it lies.
proof fn lemma_file_has_name(
    os: Platform,
    disk: Disk,
    dir: Seq<char>,
    items: Seq<ItemView>,
    upto: int,
    n: nat,
    k: int,
) -> (i: int)
    requires
        0 <= upto <= items.len(),
        well_named(os, dir, items),
        forall|j: int| 0 <= j < items.len() ==> is_tree_below(os, disk, #[trigger] items[j], n),
        dir.len() > 0,
        0 <= k < files_in(disk, items, upto, n).len(),
    ensures
        0 <= i < upto,
        lies_under(os, files_in(disk, items, upto, n)[k], dir, item_name(items[i])),
    decreases n, 0int, upto,
{
    if k < files_in(disk, items, upto - 1, n).len() {
        lemma_file_has_name(os, disk, dir, items, upto - 1, n, k)
    } else {
        lemma_last_has_name(os, disk, dir, items, upto, n, k);
        upto - 1
    }
}

proof fn lemma_files_differ(
    os: Platform,
    disk: Disk,
    dir: Seq<char>,
    items: Seq<ItemView>,
    upto: int,
    n: nat,
)
    requires
        0 <= upto <= items.len(),
        well_named(os, dir, items),
        forall|j: int| 0 <= j < items.len() ==> is_tree_below(os, disk, #[trigger] items[j], n),
        dir.len() > 0,
    ensures
        files_in(disk, items, upto, n).no_duplicates(),
    decreases n, 0int, upto,
{
    if upto > 0 {
        let all = files_in(disk, items, upto, n);
        let front = files_in(disk, items, upto - 1, n);
        lemma_files_differ(os, disk, dir, items, upto - 1, n);
        assert(is_tree_below(os, disk, items[upto - 1], n));
        let back = all.skip(front.len() as int);
        assert(all =~= front + back);
        assert(back.no_duplicates()) by {
            match items[upto - 1] {
                ItemView::Fault(_) => {},
                ItemView::Entry { name, path, is_dir } => if !ignored(name) && is_dir {
                    assert(path.len() > 0);
                    assert(back =~= files_below(disk, path, (n - 1) as nat));
                    let inner = disk(path)->0;
                    lemma_files_differ(os, disk, path, inner, inner.len() as int, (n - 1) as nat);
                },
            }
        }
        assert forall|a: int, b: int| 0 <= a < b < all.len() implies all[a] != all[b] by {
            if b < front.len() {
                assert(front[a] != front[b]);
            } else if a >= front.len() {
                assert(back[a - front.len()] != back[b - front.len()]);
            } else {
                let i = lemma_file_has_name(os, disk, dir, items, upto - 1, n, a);
                let last = item_name(items[upto - 1]);
                assert(lies_under(os, all[b], dir, last)) by {
                    lemma_last_has_name(os, disk, dir, items, upto, n, b);
                }
                if all[a] == all[b] {
                    assert(front[a] == all[a]);
                    lemma_one_name(os, all[a], dir, item_name(items[i]), last);
                }
            }
        }
    }
}

proof fn lemma_last_has_name(
    os: Platform,
    disk: Disk,
    dir: Seq<char>,
    items: Seq<ItemView>,
    upto: int,
    n: nat,
    k: int,
)
    requires
        0 < upto <= items.len(),
        well_named(os, dir, items),
        forall|j: int| 0 <= j < items.len() ==> is_tree_below(os, disk, #[trigger] items[j], n),
        dir.len() > 0,
        files_in(disk, items, upto - 1, n).len() <= k < files_in(disk, items, upto, n).len(),
    ensures
        lies_under(os, files_in(disk, items, upto, n)[k], dir, item_name(items[upto - 1])),
    decreases n, 0int, upto - 1,
{
    let front = files_in(disk, items, upto - 1, n);
    assert(is_tree_below(os, disk, items[upto - 1], n));
    match items[upto - 1] {
        ItemView::Fault(_) => {},
        ItemView::Entry { name, path, is_dir } => {
            assert(!is_sep(os, name[0]));
            assert(path =~= front_of(os, dir) + name);
            if is_dir {
                lemma_files_lie_below(os, disk, path, (n - 1) as nat, k - front.len());
                assert(path.last() == name.last());
                assert(!is_sep(os, name[name.len() - 1]));
                assert(!is_bare_drive(os, path));
                assert(front_of(os, path) == front_of(os, dir) + name + seq![separator(os)]);
            }
        },
    }
}

/// Of a tree that can be read, that is not too deep and does not hold too many
/// files, all files are listed that have no ignored name on their way: each of
/// them once, in ascending order, and by an absolute path where the directory is
/// given by one.
pub proof fn every_file_is_listed(os: Platform, disk: Disk, dir: Seq<char>)
    requires
        dir.len() > 0,
        is_tree(os, disk, dir, WALK_DEPTH as nat),
        files_below(disk, dir, WALK_DEPTH as nat).len() <= WALK_FILES,
    ensures
        ({
            let all = files_below(disk, dir, WALK_DEPTH as nat);
            let listed = in_name_order(all);
            &&& walked(disk, dir, 0, Seq::empty()) == Ok::<Seq<Seq<char>>, Seq<char>>(all)
            &&& listed.no_duplicates()
            &&& listed.to_set() == all.to_set()
            &&& forall|i: int, j: int|
                0 <= i < j < listed.len() ==> before(listed[i], listed[j])
            &&& is_absolute(os, dir) ==> forall|i: int|
                0 <= i < listed.len() ==> is_absolute(os, #[trigger] listed[i])
        }),
{
    broadcast use vstd::seq_lib::group_to_multiset_ensures;

    let n = WALK_DEPTH as nat;
    let all = files_below(disk, dir, n);
    let listed = in_name_order(all);
    let items = disk(dir)->0;
    lemma_walks_below(os, disk, dir, n, 0, Seq::empty());
    assert(Seq::<Seq<char>>::empty() + all =~= all);
    lemma_files_differ(os, disk, dir, items, items.len() as int, n);
    listed_files_are_in_order(all);
    assert forall|f: Seq<char>| listed.contains(f) <==> all.contains(f) by {
        assert(listed.to_multiset().count(f) == all.to_multiset().count(f));
    }
    assert(listed.to_set() =~= all.to_set());
    all.lemma_multiset_has_no_duplicates();
    listed.lemma_multiset_has_no_duplicates_conv();
    assert forall|i: int, j: int| 0 <= i < j < listed.len() implies before(
        listed[i],
        listed[j],
    ) by {
        crate::order::lemma_before_total(listed[i], listed[j]);
    }
    if is_absolute(os, dir) {
        assert forall|i: int| 0 <= i < listed.len() implies is_absolute(
            os,
            #[trigger] listed[i],
        ) by {
            assert(all.contains(listed[i]));
            let k = choose|k: int| 0 <= k < all.len() && all[k] == listed[i];
            lemma_files_lie_below(os, disk, dir, n, k);
            lemma_absolute_below(os, dir, all[k]);
        }
    }
}

/// A walk passes over what is stored by git, what was installed, what was built and what the
/// app keeps, and over nothing else.
pub proof fn walks_pass_over_what_is_made(name: Seq<char>)
    ensures
        ignored(name) <==> seq![
            ".git"@,
            "node_modules"@,
            "target"@,
            "dist"@,
            "build"@,
            ".noTerm"@,
        ].contains(name),
{
    let names = seq![
        ".git"@,
        "node_modules"@,
        "target"@,
        "dist"@,
        "build"@,
        ".noTerm"@,
    ];
    assert(names[0] == ".git"@ && names[1] == "node_modules"@ && names[2] == "target"@);
    assert(names[3] == "dist"@ && names[4] == "build"@ && names[5] == ".noTerm"@);
}

/// A walk goes through a listing item by item: a file is found by its path, an item with an
/// ignored name changes nothing, a directory is gone through unless it is too deep, cannot be
/// read or too much was found, and one that cannot be told ends the walk.
pub proof fn walks_go_item_by_item(
    disk: Disk,
    items: Seq<ItemView>,
    i: int,
    depth: int,
    found: Seq<Seq<char>>,
)
    requires
        0 <= i < items.len(),
        0 <= depth <= 12,
    ensures
        ({
            let all = walked_items(disk, items, i, depth, found);
            match items[i] {
                ItemView::Fault(e) => all == Err::<Seq<Seq<char>>, Seq<char>>(e),
                ItemView::Entry { name, path, is_dir } => {
                    let rest = walked_items(disk, items, i + 1, depth, found);
                    &&& ignored(name) ==> all == rest
                    &&& !ignored(name) && !is_dir ==> all == walked_items(
                        disk,
                        items,
                        i + 1,
                        depth,
                        found.push(path),
                    )
                    &&& !ignored(name) && is_dir && (depth == 12 || found.len() > 20_000 || disk(
                        path,
                    ) is None) ==> all == rest
                    &&& !ignored(name) && is_dir && depth < 12 && found.len() <= 20_000 && disk(
                        path,
                    ) is Some ==> match walked_items(disk, disk(path)->0, 0, depth + 1, found) {
                        Ok(more) => all == walked_items(disk, items, i + 1, depth, more),
                        Err(e) => all == Err::<Seq<Seq<char>>, Seq<char>>(e),
                    }
                },
            }
        }),
{
    reveal_with_fuel(walked_items, 2);
    reveal_with_fuel(walked, 2);
}

/// A walk that fails says so, and why; one that does not gives what it found.
pub proof fn failed_walks_say_why(v: Seq<Seq<char>>, e: Seq<char>)
    ensures
        walk_result(Ok(v)) == Ok::<Seq<Seq<char>>, Seq<char>>(v),
        walk_result(Err(e)) == Err::<Seq<Seq<char>>, Seq<char>>("Failed to walk directory: "@ + e),
{
}

} // verus!
