//! Which downloaded images stay and which are removed.
//!
//! After every change the download directory is swept: of the image files
//! in it, the most recently modified ones stay and the rest are removed.
//! The directory is listed first, by name and kind. Modification times are
//! read only where more images are listed than are to stay, and only of
//! the images.

use vstd::prelude::*;

verus! {

/// Extension that marks a file as a downloaded image.
pub const IMAGE_EXTENSION: &'static str = "webp";

/// Number of images that a sweep leaves in the download directory.
pub const KEEP_COUNT: usize = 5;

/// One entry of a directory listing.
#[derive(Debug, Clone, PartialEq, Eq)]
pub struct FileInfo {
    /// Name of the entry inside its directory.
    pub name: String,
    /// Whether the entry is a regular file.
    pub is_file: bool,
    /// Time of the last modification, in nanoseconds since the Unix epoch.
    pub modified: i128,
}

/// What a [`FileInfo`] holds, as mathematical values.
pub ghost struct FileView {
    pub name: Seq<char>,
    pub is_file: bool,
    pub modified: int,
}

impl View for FileInfo {
    type V = FileView;

    open spec fn view(&self) -> FileView {
        FileView { name: self.name@, is_file: self.is_file, modified: self.modified as int }
    }
}

/// A listing as a sequence of mathematical entries.
pub open spec fn listing(files: Seq<FileInfo>) -> Seq<FileView> {
    files.map_values(|f: FileInfo| f@)
}

/// `name` ends in a `.` and the image extension, and the `.` is not its
/// first character: what follows the last `.` of the name is the extension,
/// and a name that only starts with a `.` has none.
pub open spec fn has_image_extension(name: Seq<char>) -> bool {
    let ext = IMAGE_EXTENSION@;
    &&& name.len() > ext.len() + 1
    &&& name[name.len() - ext.len() - 1] == '.'
    &&& name.skip(name.len() - ext.len()) == ext
}

/// Tells whether a file name carries the image extension.
pub fn is_image_name(name: &str) -> (yes: bool)
    ensures
        yes == has_image_extension(name@),
{
    let n = name.unicode_len();
    let m = IMAGE_EXTENSION.unicode_len();
    proof {
        reveal_strlit("webp");
    }
    if n <= m + 1 {
        return false;
    }
    let dot = name.get_char(n - m - 1);
    let tail = String::from_str(name.substring_char(n - m, n));
    let ext = String::from_str(IMAGE_EXTENSION);
    assert(name@.skip(n - m) == name@.subrange(n - m, n as int));
    dot == '.' && tail == ext
}

/// The entry is a regular file whose name carries the image extension.
pub open spec fn is_image(file: FileView) -> bool {
    file.is_file && has_image_extension(file.name)
}

impl FileInfo {
    /// Tells whether the entry is an image file.
    pub fn is_image(&self) -> (yes: bool)
        ensures
            yes == is_image(self@),
    {
        self.is_file && is_image_name(self.name.as_str())
    }
}

/// One entry of a directory listing, before anything is known of its
/// modification time.
#[derive(Debug, Clone, PartialEq, Eq)]
pub struct Entry {
    /// Name of the entry inside its directory.
    pub name: String,
    /// Whether the entry is a regular file.
    pub is_file: bool,
}

/// What an [`Entry`] holds, as mathematical values.
pub ghost struct EntryView {
    pub name: Seq<char>,
    pub is_file: bool,
}

impl View for Entry {
    type V = EntryView;

    open spec fn view(&self) -> EntryView {
        EntryView { name: self.name@, is_file: self.is_file }
    }
}

/// Entries as a sequence of mathematical entries.
pub open spec fn entries_of(entries: Seq<Entry>) -> Seq<EntryView> {
    entries.map_values(|e: Entry| e@)
}

/// Times as mathematical integers.
pub open spec fn moments(times: Seq<i128>) -> Seq<int> {
    times.map_values(|t: i128| t as int)
}

/// The entry is a regular file whose name carries the image extension.
pub open spec fn is_image_entry(entry: EntryView) -> bool {
    entry.is_file && has_image_extension(entry.name)
}

/// Positions of the image files among the entries, in listing order.
pub open spec fn images_of(entries: Seq<EntryView>) -> Seq<int>
    decreases entries.len(),
{
    if entries.len() == 0 {
        Seq::empty()
    } else if is_image_entry(entries.last()) {
        images_of(entries.drop_last()).push(entries.len() - 1)
    } else {
        images_of(entries.drop_last())
    }
}

/// The listing that the entries make once the times of the image files
/// are known: `times` holds one time for each image file, in listing
/// order, so the time of an image is found at the number of images listed
/// before it. Of the other entries no time is asked; they get time 0.
pub open spec fn with_times(entries: Seq<EntryView>, times: Seq<int>) -> Seq<FileView> {
    Seq::new(
        entries.len(),
        |i: int|
            FileView {
                name: entries[i].name,
                is_file: entries[i].is_file,
                modified: if is_image_entry(entries[i]) {
                    times[images_of(entries.take(i)).len() as int]
                } else {
                    0
                },
            },
    )
}

impl Entry {
    /// Tells whether the entry is an image file.
    pub fn is_image(&self) -> (yes: bool)
        ensures
            yes == is_image_entry(self@),
    {
        self.is_file && is_image_name(self.name.as_str())
    }

    /// A copy of the entry.
    pub fn duplicate(&self) -> (copy: Entry)
        ensures
            copy@ == self@,
    {
        Entry { name: self.name.clone(), is_file: self.is_file }
    }
}

/// A copy of the entries.
pub fn duplicate_entries(entries: &Vec<Entry>) -> (copy: Vec<Entry>)
    ensures
        entries_of(copy@) == entries_of(entries@),
{
    let mut copy: Vec<Entry> = Vec::new();
    let mut i: usize = 0;
    while i < entries.len()
        invariant
            i <= entries.len(),
            copy@.len() == i,
            forall|k: int| 0 <= k < i ==> (#[trigger] copy@[k])@ == entries@[k]@,
        decreases entries.len() - i,
    {
        copy.push(entries[i].duplicate());
        i = i + 1;
    }
    assert(entries_of(copy@) =~= entries_of(entries@));
    copy
}

/// The images among the first entries are the first of the images of all.
pub proof fn lemma_images_grow(entries: Seq<EntryView>, i: int)
    requires
        0 <= i <= entries.len(),
    ensures
        images_of(entries.take(i)).len() <= images_of(entries).len(),
        images_of(entries.take(i)) == images_of(entries).take(
            images_of(entries.take(i)).len() as int,
        ),
    decreases entries.len() - i,
{
    if i < entries.len() {
        assert(entries.take(i + 1).drop_last() == entries.take(i));
        lemma_images_grow(entries, i + 1);
        let more = images_of(entries.take(i + 1));
        let fewer = images_of(entries.take(i));
        assert(fewer =~= more.take(fewer.len() as int));
        assert(fewer =~= images_of(entries).take(fewer.len() as int));
    } else {
        assert(entries.take(i) == entries);
        assert(images_of(entries) =~= images_of(entries).take(images_of(entries).len() as int));
    }
}

/// The positions that `images_of` lists are those of the image files, each
/// once and in rising order.
pub proof fn lemma_images_are_listed(entries: Seq<EntryView>)
    ensures
        forall|k: int|
            0 <= k < images_of(entries).len() ==> 0 <= (#[trigger] images_of(entries)[k])
                < entries.len() && is_image_entry(entries[images_of(entries)[k]]),
        forall|a: int, b: int|
            0 <= a < b < images_of(entries).len() ==> images_of(entries)[a] < images_of(
                entries,
            )[b],
        forall|x: int|
            0 <= x < entries.len() && is_image_entry(entries[x]) ==> images_of(entries).contains(
                x,
            ),
        images_of(entries).no_duplicates(),
    decreases entries.len(),
{
    if entries.len() > 0 {
        let before = entries.drop_last();
        lemma_images_are_listed(before);
        let found = images_of(entries);
        let earlier = images_of(before);
        assert forall|x: int|
            0 <= x < entries.len() && is_image_entry(entries[x]) implies found.contains(x) by {
            if x < before.len() {
                assert(before[x] == entries[x]);
                assert(earlier.contains(x));
                let k = choose|k: int| 0 <= k < earlier.len() && earlier[k] == x;
                assert(found[k] == x);
            } else {
                assert(found[found.len() - 1] == x);
            }
        }
        assert forall|k: int| 0 <= k < found.len() implies 0 <= (#[trigger] found[k])
            < entries.len() && is_image_entry(entries[found[k]]) by {
            if k < earlier.len() {
                assert(found[k] == earlier[k]);
                assert(before[earlier[k]] == entries[earlier[k]]);
            }
        }
        assert forall|a: int, b: int| 0 <= a < b < found.len() implies found[a] < found[b] by {
            assert(found[a] == earlier[a]);
            if b < earlier.len() {
                assert(found[b] == earlier[b]);
            }
        }
    }
}

/// In a listing with times, the image files are those among the entries,
/// and each has the time given for it: the image listed at rank `k` among
/// the images has the time at rank `k` among the times.
pub proof fn law_times_go_to_their_images(entries: Seq<EntryView>, times: Seq<int>)
    ensures
        image_positions(with_times(entries, times)) == images_of(entries).to_set(),
        image_positions(with_times(entries, times)).len() == images_of(entries).len(),
        forall|k: int|
            0 <= k < images_of(entries).len() ==> with_times(entries, times)[#[trigger] images_of(
                entries,
            )[k]].modified == times[k],
{
    let files = with_times(entries, times);
    let found = images_of(entries);
    lemma_images_are_listed(entries);
    assert(image_positions(files) =~= found.to_set()) by {
        assert forall|x: int| found.to_set().contains(x) implies image_positions(files).contains(
            x,
        ) by {
            let k = choose|k: int| 0 <= k < found.len() && found[k] == x;
            assert(is_image_entry(entries[found[k]]));
        }
    }
    found.unique_seq_to_set();
    assert forall|k: int| 0 <= k < found.len() implies files[#[trigger] found[k]].modified
        == times[k] by {
        let x = found[k];
        lemma_images_grow(entries, x);
        lemma_images_grow(entries, x + 1);
        assert(entries.take(x + 1).drop_last() == entries.take(x));
        let rank = images_of(entries.take(x)).len() as int;
        assert(images_of(entries.take(x + 1)) == images_of(entries.take(x)).push(x));
        assert(images_of(entries.take(x + 1))[rank] == x);
        assert(found.take(rank + 1)[rank] == x);
        assert(found[rank] == x);
    }
}

/// Lists the positions of the image files among the entries, in listing
/// order.
pub fn image_entries(entries: &Vec<Entry>) -> (images: Vec<usize>)
    ensures
        positions(images@) == images_of(entries_of(entries@)),
{
    let ghost all = entries_of(entries@);
    let mut images: Vec<usize> = Vec::new();
    let mut i: usize = 0;
    while i < entries.len()
        invariant
            i <= entries.len(),
            all == entries_of(entries@),
            positions(images@) == images_of(all.take(i as int)),
        decreases entries.len() - i,
    {
        assert(all.take(i + 1).drop_last() == all.take(i as int));
        if entries[i].is_image() {
            images.push(i);
            assert(positions(images@) =~= images_of(all.take(i as int)).push(i as int));
        }
        i = i + 1;
    }
    assert(all.take(i as int) == all);
    images
}

/// Attaches to the entries the times of their image files, given in
/// listing order. There must be one time for each image file; otherwise
/// there is no listing.
pub fn attach_times(entries: &Vec<Entry>, times: &Vec<i128>) -> (listed: Option<Vec<FileInfo>>)
    ensures
        listed is Some <==> times@.len() == images_of(entries_of(entries@)).len(),
        listed matches Some(files) ==> listing(files@) == with_times(
            entries_of(entries@),
            moments(times@),
        ),
{
    let ghost all = entries_of(entries@);
    let ghost whole = with_times(all, moments(times@));
    let mut files: Vec<FileInfo> = Vec::new();
    let mut used: usize = 0;
    let mut i: usize = 0;
    while i < entries.len()
        invariant
            i <= entries.len(),
            all == entries_of(entries@),
            whole == with_times(all, moments(times@)),
            used == images_of(all.take(i as int)).len(),
            used <= times@.len(),
            files@.len() == i,
            forall|k: int| 0 <= k < i ==> (#[trigger] files@[k])@ == whole[k],
        decreases entries.len() - i,
    {
        proof {
            assert(all.take(i + 1).drop_last() == all.take(i as int));
            lemma_images_grow(all, i + 1);
        }
        let entry = &entries[i];
        let modified = if entry.is_image() {
            if used == times.len() {
                return None;
            }
            let time = times[used];
            used = used + 1;
            time
        } else {
            0
        };
        files.push(FileInfo { name: entry.name.clone(), is_file: entry.is_file, modified });
        i = i + 1;
    }
    assert(all.take(i as int) == all);
    if used != times.len() {
        return None;
    }
    assert(listing(files@) =~= whole);
    Some(files)
}

/// Positions of the image files in a listing.
pub open spec fn image_positions(files: Seq<FileView>) -> Set<int> {
    Set::new(|i: int| 0 <= i < files.len() && is_image(files[i]))
}

/// The entry at `a` is kept in preference to the one at `b`: it was
/// modified later, or at the same time and listed earlier.
pub open spec fn outranks(files: Seq<FileView>, a: int, b: int) -> bool {
    files[a].modified > files[b].modified || (files[a].modified == files[b].modified && a < b)
}

/// Number of images that a sweep removes from a directory holding `images`
/// of them: those beyond the first `keep`.
pub open spec fn excess(images: nat, keep: nat) -> nat {
    if images <= keep {
        0
    } else {
        (images - keep) as nat
    }
}

/// `doomed` is the sweep of `files` that keeps `keep` images: it lists,
/// from the most preferred to the least, positions of image files, as
/// many as there are images beyond `keep`, and every image that it leaves
/// out is preferred to every one that it lists.
pub open spec fn is_sweep(files: Seq<FileView>, keep: nat, doomed: Seq<int>) -> bool {
    &&& doomed.len() == excess(image_positions(files).len(), keep)
    &&& forall|k: int|
        0 <= k < doomed.len() ==> image_positions(files).contains(#[trigger] doomed[k])
    &&& forall|a: int, b: int|
        0 <= a < b < doomed.len() ==> outranks(files, #[trigger] doomed[a], #[trigger] doomed[b])
    &&& forall|i: int, k: int|
        image_positions(files).contains(i) && !doomed.contains(i) && 0 <= k < doomed.len()
            ==> #[trigger] outranks(files, i, doomed[k])
}

/// Positions as mathematical integers.
pub open spec fn positions(indices: Seq<usize>) -> Seq<int> {
    indices.map_values(|i: usize| i as int)
}

/// Compares two entries of a listing by preference.
fn outranks_at(files: &Vec<FileInfo>, a: usize, b: usize) -> (yes: bool)
    requires
        a < files.len(),
        b < files.len(),
    ensures
        yes == outranks(listing(files@), a as int, b as int),
{
    let x = files[a].modified;
    let y = files[b].modified;
    x > y || (x == y && a < b)
}

/// Lists the positions of the image files, in listing order.
fn collect_images(files: &Vec<FileInfo>) -> (found: Vec<usize>)
    ensures
        positions(found@).no_duplicates(),
        positions(found@).to_set() == image_positions(listing(files@)),
        found@.len() == image_positions(listing(files@)).len(),
{
    let ghost all = listing(files@);
    let mut found: Vec<usize> = Vec::new();
    let mut i: usize = 0;
    while i < files.len()
        invariant
            i <= files.len(),
            all == listing(files@),
            forall|k: int|
                0 <= k < found@.len() ==> (#[trigger] found@[k]) < i && is_image(
                    all[found@[k] as int],
                ),
            forall|a: int, b: int| 0 <= a < b < found@.len() ==> found@[a] < found@[b],
            forall|j: int| 0 <= j < i && is_image(all[j]) ==> positions(found@).contains(j),
        decreases files.len() - i,
    {
        let ghost before = found@;
        if files[i].is_image() {
            found.push(i);
            proof {
                assert forall|j: int| 0 <= j < i + 1 && is_image(all[j]) implies positions(
                    found@,
                ).contains(j) by {
                    if j < i {
                        assert(positions(before).contains(j));
                        let k = choose|k: int|
                            0 <= k < positions(before).len() && positions(before)[k] == j;
                        assert(found@[k] == before[k]);
                        assert(positions(found@)[k] == j);
                    } else {
                        assert(positions(found@)[found@.len() - 1] == j);
                    }
                }
            }
        }
        i = i + 1;
    }
    proof {
        let ps = positions(found@);
        assert(ps.to_set() =~= image_positions(all)) by {
            assert forall|x: int| ps.to_set().contains(x) implies image_positions(all).contains(
                x,
            ) by {
                let k = choose|k: int| 0 <= k < ps.len() && ps[k] == x;
                assert(found@[k] < i);
            }
        }
        ps.unique_seq_to_set();
    }
    found
}

/// `s` with the entries at `i` and `j` exchanged.
spec fn exchanged(s: Seq<usize>, i: int, j: int) -> Seq<usize> {
    s.update(i, s[j]).update(j, s[i])
}

/// Exchanging two entries keeps the entries and keeps them distinct.
proof fn lemma_exchange_keeps_entries(s: Seq<usize>, i: int, j: int)
    requires
        0 <= i < s.len(),
        0 <= j < s.len(),
    ensures
        positions(exchanged(s, i, j)).to_set() == positions(s).to_set(),
        positions(s).no_duplicates() ==> positions(exchanged(s, i, j)).no_duplicates(),
{
    let t = exchanged(s, i, j);
    let ps = positions(s);
    let pt = positions(t);
    assert forall|x: int| pt.contains(x) implies ps.contains(x) by {
        let k = choose|k: int| 0 <= k < pt.len() && pt[k] == x;
        if k == i {
            assert(ps[j] == x);
        } else if k == j {
            assert(ps[i] == x);
        } else {
            assert(ps[k] == x);
        }
    }
    assert forall|x: int| ps.contains(x) implies pt.contains(x) by {
        let k = choose|k: int| 0 <= k < ps.len() && ps[k] == x;
        if k == i {
            assert(pt[j] == x);
        } else if k == j {
            assert(pt[i] == x);
        } else {
            assert(pt[k] == x);
        }
    }
    assert(pt.to_set() =~= ps.to_set());
    if ps.no_duplicates() {
        assert forall|a: int, b: int|
            0 <= a < pt.len() && 0 <= b < pt.len() && a != b implies pt[a] != pt[b] by {
            let a0 = if a == i { j } else if a == j { i } else { a };
            let b0 = if b == i { j } else if b == j { i } else { b };
            assert(pt[a] == ps[a0]);
            assert(pt[b] == ps[b0]);
        }
    }
}

/// `order` lists positions of `files` from the most preferred to the least.
pub open spec fn is_ranked(files: Seq<FileView>, order: Seq<int>) -> bool {
    forall|a: int, b: int|
        0 <= a < b < order.len() ==> outranks(files, #[trigger] order[a], #[trigger] order[b])
}

/// Orders positions of a listing from the most preferred to the least.
fn rank(files: &Vec<FileInfo>, found: Vec<usize>) -> (order: Vec<usize>)
    requires
        forall|k: int| 0 <= k < found@.len() ==> (#[trigger] found@[k]) < files@.len(),
        positions(found@).no_duplicates(),
    ensures
        order@.len() == found@.len(),
        positions(order@).no_duplicates(),
        positions(order@).to_set() == positions(found@).to_set(),
        is_ranked(listing(files@), positions(order@)),
{
    let ghost all = listing(files@);
    let ghost entries = positions(found@).to_set();
    let n = found.len();
    let mut order = found;
    let mut i: usize = 1;
    while i < n
        invariant
            1 <= i,
            order@.len() == n,
            all == listing(files@),
            forall|k: int| 0 <= k < n ==> (#[trigger] order@[k]) < files@.len(),
            positions(order@).no_duplicates(),
            positions(order@).to_set() == entries,
            forall|a: int, b: int|
                0 <= a < b < i && b < n ==> outranks(
                    all,
                    (#[trigger] order@[a]) as int,
                    (#[trigger] order@[b]) as int,
                ),
        decreases n - i,
    {
        let mut j: usize = i;
        let mut settled = false;
        while j > 0 && !settled
            invariant
                j <= i < n,
                order@.len() == n,
                all == listing(files@),
                forall|k: int| 0 <= k < n ==> (#[trigger] order@[k]) < files@.len(),
                positions(order@).no_duplicates(),
                positions(order@).to_set() == entries,
                forall|a: int, b: int|
                    0 <= a < b <= i && b != j ==> outranks(
                        all,
                        (#[trigger] order@[a]) as int,
                        (#[trigger] order@[b]) as int,
                    ),
                settled ==> j > 0 && !outranks(all, order@[j as int] as int, order@[j - 1] as int),
            decreases j + (if settled { 0int } else { 1int }),
        {
            let later = order[j];
            let earlier = order[j - 1];
            if outranks_at(files, later, earlier) {
                let ghost before = order@;
                order.set(j - 1, later);
                order.set(j, earlier);
                proof {
                    assert(order@ == exchanged(before, j - 1, j as int));
                    lemma_exchange_keeps_entries(before, j - 1, j as int);
                }
                j = j - 1;
            } else {
                settled = true;
            }
        }
        proof {
            assert forall|a: int, b: int| 0 <= a < b < i + 1 && b < n implies outranks(
                all,
                (#[trigger] order@[a]) as int,
                (#[trigger] order@[b]) as int,
            ) by {
                if b == j {
                    assert(positions(order@)[j - 1] != positions(order@)[j as int]);
                    if a < j - 1 {
                        assert(outranks(all, order@[a] as int, order@[j - 1] as int));
                    }
                }
            }
        }
        i = i + 1;
    }
    proof {
        let ps = positions(order@);
        assert forall|a: int, b: int| 0 <= a < b < ps.len() implies outranks(
            all,
            #[trigger] ps[a],
            #[trigger] ps[b],
        ) by {
            assert(outranks(all, order@[a] as int, order@[b] as int));
        }
    }
    order
}

/// Plans the sweep of a directory: the positions, in `files`, of the image
/// files to remove so that the `keep_count` most preferred ones stay, in
/// the order in which they are to be removed.
///
/// A directory with no more than `keep_count` images is left alone.
pub fn plan_sweep(files: &Vec<FileInfo>, keep_count: usize) -> (doomed: Vec<usize>)
    ensures
        is_sweep(listing(files@), keep_count as nat, positions(doomed@)),
{
    let ghost all = listing(files@);
    let found = collect_images(files);
    if found.len() <= keep_count {
        return Vec::new();
    }
    proof {
        assert forall|k: int| 0 <= k < found@.len() implies (#[trigger] found@[k])
            < files@.len() by {
            assert(positions(found@)[k] == found@[k]);
            assert(positions(found@).to_set().contains(found@[k] as int));
        }
    }
    let order = rank(files, found);
    let mut doomed: Vec<usize> = Vec::new();
    let mut k: usize = keep_count;
    while k < order.len()
        invariant
            keep_count <= k <= order@.len(),
            doomed@ == order@.subrange(keep_count as int, k as int),
        decreases order@.len() - k,
    {
        doomed.push(order[k]);
        k = k + 1;
    }
    proof {
        let ranked = positions(order@);
        let last = positions(doomed@);
        assert(last =~= ranked.skip(keep_count as int));
        assert forall|k: int| 0 <= k < last.len() implies image_positions(all).contains(
            #[trigger] last[k],
        ) by {
            assert(ranked[keep_count + k] == last[k]);
            assert(ranked.to_set().contains(last[k]));
        }
        assert forall|i: int, k: int|
            image_positions(all).contains(i) && !last.contains(i) && 0 <= k < last.len()
            implies #[trigger] outranks(all, i, last[k]) by {
            assert(ranked.to_set().contains(i));
            let p = choose|p: int| 0 <= p < ranked.len() && ranked[p] == i;
            if p >= keep_count {
                assert(last[p - keep_count] == i);
            }
            assert(outranks(all, ranked[p], ranked[keep_count + k]));
        }
    }
    doomed
}

/// The images that stay when those listed in `doomed` are removed.
pub open spec fn kept(files: Seq<FileView>, doomed: Seq<int>) -> Set<int> {
    image_positions(files).difference(doomed.to_set())
}

/// No two image files of the listing were modified at the same time.
pub open spec fn distinct_times(files: Seq<FileView>) -> bool {
    forall|i: int, j: int|
        image_positions(files).contains(i) && image_positions(files).contains(j) && i != j
            ==> files[i].modified != files[j].modified
}

/// A listing holds finitely many images, no more than it has entries.
pub proof fn lemma_images_are_finite(files: Seq<FileView>)
    ensures
        image_positions(files).finite(),
        image_positions(files).len() <= files.len(),
{
    let all = vstd::set_lib::set_int_range(0, files.len() as int);
    vstd::set_lib::lemma_int_range(0, files.len() as int);
    assert(image_positions(files).subset_of(all));
    vstd::set_lib::lemma_len_subset(image_positions(files), all);
}

/// A ranked list of positions names none twice.
pub proof fn lemma_ranked_is_duplicate_free(files: Seq<FileView>, order: Seq<int>)
    requires
        is_ranked(files, order),
    ensures
        order.no_duplicates(),
{
    assert forall|a: int, b: int|
        0 <= a < order.len() && 0 <= b < order.len() && a != b implies order[a] != order[b] by {
        if a < b {
            assert(outranks(files, order[a], order[b]));
        } else {
            assert(outranks(files, order[b], order[a]));
        }
    }
}

/// A sweep leaves `keep` images in place, or all of them where the
/// directory holds no more than that; in the latter case it removes none.
pub proof fn law_sweep_leaves_keep_count(files: Seq<FileView>, keep: nat, doomed: Seq<int>)
    requires
        is_sweep(files, keep, doomed),
    ensures
        kept(files, doomed).finite(),
        image_positions(files).len() > keep ==> kept(files, doomed).len() == keep,
        image_positions(files).len() <= keep ==> doomed.len() == 0 && kept(files, doomed)
            == image_positions(files),
{
    let images = image_positions(files);
    lemma_images_are_finite(files);
    assert(is_ranked(files, doomed));
    lemma_ranked_is_duplicate_free(files, doomed);
    doomed.unique_seq_to_set();
    vstd::seq_lib::seq_to_set_is_finite(doomed);
    assert(images.intersect(doomed.to_set()) =~= doomed.to_set()) by {
        assert forall|x: int| doomed.to_set().contains(x) implies images.contains(x) by {
            let k = choose|k: int| 0 <= k < doomed.len() && doomed[k] == x;
            assert(images.contains(doomed[k]));
        }
    }
    vstd::set_lib::lemma_set_difference_len(images, doomed.to_set());
    if images.len() <= keep {
        assert(doomed.to_set() =~= Set::<int>::empty());
        assert(kept(files, doomed) =~= images);
    }
}

/// Where no two images were modified at the same time, every image that a
/// sweep leaves in place was modified later than every one that it removes:
/// the images that stay are the most recently modified ones.
pub proof fn law_sweep_keeps_newest(files: Seq<FileView>, keep: nat, doomed: Seq<int>)
    requires
        is_sweep(files, keep, doomed),
        distinct_times(files),
    ensures
        forall|i: int, d: int|
            kept(files, doomed).contains(i) && doomed.contains(d) ==> files[i].modified
                > files[d].modified,
{
    assert forall|i: int, d: int|
        kept(files, doomed).contains(i) && doomed.contains(d) implies files[i].modified
        > files[d].modified by {
        let k = choose|k: int| 0 <= k < doomed.len() && doomed[k] == d;
        assert(image_positions(files).contains(doomed[k]));
        assert(outranks(files, i, doomed[k]));
    }
}

/// Two ranked lists that name the same positions are the same list.
pub proof fn lemma_ranking_is_determined(files: Seq<FileView>, first: Seq<int>, second: Seq<int>)
    requires
        is_ranked(files, first),
        is_ranked(files, second),
        first.to_set() == second.to_set(),
    ensures
        first == second,
    decreases first.len(),
{
    lemma_ranked_is_duplicate_free(files, first);
    lemma_ranked_is_duplicate_free(files, second);
    first.unique_seq_to_set();
    second.unique_seq_to_set();
    if first.len() > 0 {
        let x = first[0];
        let y = second[0];
        assert(second.to_set().contains(x));
        assert(first.to_set().contains(y));
        let p = choose|p: int| 0 <= p < second.len() && second[p] == x;
        let q = choose|q: int| 0 <= q < first.len() && first[q] == y;
        if p > 0 {
            assert(outranks(files, second[0], second[p]));
            if q > 0 {
                assert(outranks(files, first[0], first[q]));
            }
        }
        assert(x == y);
        let rest1 = first.skip(1);
        let rest2 = second.skip(1);
        assert(rest1.to_set() =~= rest2.to_set()) by {
            assert forall|z: int| rest1.contains(z) implies rest2.contains(z) by {
                let k = choose|k: int| 0 <= k < rest1.len() && rest1[k] == z;
                assert(first[k + 1] == z);
                assert(second.to_set().contains(z));
                let m = choose|m: int| 0 <= m < second.len() && second[m] == z;
                assert(rest2[m - 1] == z);
            }
            assert forall|z: int| rest2.contains(z) implies rest1.contains(z) by {
                let k = choose|k: int| 0 <= k < rest2.len() && rest2[k] == z;
                assert(second[k + 1] == z);
                assert(first.to_set().contains(z));
                let m = choose|m: int| 0 <= m < first.len() && first[m] == z;
                assert(rest1[m - 1] == z);
            }
        }
        assert(is_ranked(files, rest1)) by {
            assert forall|a: int, b: int| 0 <= a < b < rest1.len() implies outranks(
                files,
                #[trigger] rest1[a],
                #[trigger] rest1[b],
            ) by {
                assert(outranks(files, first[a + 1], first[b + 1]));
            }
        }
        assert(is_ranked(files, rest2)) by {
            assert forall|a: int, b: int| 0 <= a < b < rest2.len() implies outranks(
                files,
                #[trigger] rest2[a],
                #[trigger] rest2[b],
            ) by {
                assert(outranks(files, second[a + 1], second[b + 1]));
            }
        }
        lemma_ranking_is_determined(files, rest1, rest2);
        assert(first =~= seq![x] + rest1);
        assert(second =~= seq![y] + rest2);
    } else {
        assert(second.len() == 0);
        assert(first =~= second);
    }
}

/// A listing and a count admit one sweep only.
pub proof fn law_sweep_is_determined(
    files: Seq<FileView>,
    keep: nat,
    first: Seq<int>,
    second: Seq<int>,
)
    requires
        is_sweep(files, keep, first),
        is_sweep(files, keep, second),
    ensures
        first == second,
{
    assert(is_ranked(files, first));
    assert(is_ranked(files, second));
    lemma_ranked_is_duplicate_free(files, first);
    lemma_ranked_is_duplicate_free(files, second);
    first.unique_seq_to_set();
    second.unique_seq_to_set();
    vstd::seq_lib::seq_to_set_is_finite(first);
    vstd::seq_lib::seq_to_set_is_finite(second);
    lemma_one_sided(files, keep, first, second);
    lemma_one_sided(files, keep, second, first);
    assert(first.to_set() =~= second.to_set());
    lemma_ranking_is_determined(files, first, second);
}

/// Of two sweeps of one listing, the first names nothing that the second
/// leaves out.
proof fn lemma_one_sided(files: Seq<FileView>, keep: nat, first: Seq<int>, second: Seq<int>)
    requires
        is_sweep(files, keep, first),
        is_sweep(files, keep, second),
        first.no_duplicates(),
        second.no_duplicates(),
    ensures
        first.to_set().subset_of(second.to_set()),
{
    first.unique_seq_to_set();
    second.unique_seq_to_set();
    vstd::seq_lib::seq_to_set_is_finite(first);
    vstd::seq_lib::seq_to_set_is_finite(second);
    if !first.to_set().subset_of(second.to_set()) {
        let x = choose|x: int| first.to_set().contains(x) && !second.to_set().contains(x);
        let kx = choose|k: int| 0 <= k < first.len() && first[k] == x;
        assert(image_positions(files).contains(first[kx]));
        if second.to_set().subset_of(first.to_set()) {
            assert(second.to_set().subset_of(first.to_set().remove(x)));
            vstd::set_lib::lemma_len_subset(second.to_set(), first.to_set().remove(x));
            assert(false);
        }
        let y = choose|y: int| second.to_set().contains(y) && !first.to_set().contains(y);
        let ky = choose|k: int| 0 <= k < second.len() && second[k] == y;
        assert(image_positions(files).contains(second[ky]));
        assert(outranks(files, x, second[ky]));
        assert(outranks(files, y, first[kx]));
        assert(false);
    }
}

} // verus!
