//! What a scan finds, stated over a model of the directory tree, and the
//! proof that the scanner finds exactly that.

use crate::html::{
    document, lemma_page_holds_link, lemma_page_without_records, link_element, link_elements,
    occurs_in, page_head, page_tail,
};
use crate::metadata::record_of_text;
use crate::record::PresentationView;
use crate::scan::{first_wanted, wanted, Action, EntryView, EventView, Level, ScannerView};
use vstd::prelude::*;

verus! {

/// An entry of the directory of one presentation.
pub ghost struct FileModel {
    pub name: Seq<char>,
    pub is_dir: bool,
    /// The text of the file, or `None` where it cannot be read as text.
    pub content: Option<Seq<char>>,
}

/// An entry of the `slides` directory.
pub ghost struct DirectoryModel {
    pub name: Seq<char>,
    pub is_dir: bool,
    /// The entries of the directory in the order of their listing, or `None`
    /// where it cannot be listed.
    pub files: Option<Seq<FileModel>>,
}

/// The part of the file system that a scan can see.
pub ghost struct SlidesTree {
    /// The entries of `slides` in the order of their listing, or `None` where
    /// the directory is missing or cannot be listed.
    pub slides: Option<Seq<DirectoryModel>>,
}

/// A file as a listing shows it.
pub open spec fn file_entry(file: FileModel) -> EntryView {
    EntryView { name: file.name, is_dir: file.is_dir }
}

/// An entry of `slides` as a listing shows it.
pub open spec fn directory_entry(directory: DirectoryModel) -> EntryView {
    EntryView { name: directory.name, is_dir: directory.is_dir }
}

/// The listing of a presentation's directory.
pub open spec fn file_listing(files: Seq<FileModel>) -> Seq<EntryView> {
    files.map_values(|f: FileModel| file_entry(f))
}

/// The listing of `slides`.
pub open spec fn directory_listing(directories: Seq<DirectoryModel>) -> Seq<EntryView> {
    directories.map_values(|d: DirectoryModel| directory_entry(d))
}

impl SlidesTree {
    /// No listing of the tree is longer than a machine can hold.
    pub open spec fn fits(self) -> bool {
        self.slides matches Some(directories) ==> {
            &&& directories.len() <= usize::MAX
            &&& forall|d: int|
                0 <= d < directories.len() ==> (#[trigger] directories[d].files matches Some(files)
                    ==> files.len() <= usize::MAX)
        }
    }

    /// What the file system gives for an action.
    pub open spec fn answer(self, action: Action) -> EventView {
        match action {
            Action::ListSlides => match self.slides {
                Some(directories) => EventView::Listing(directory_listing(directories)),
                None => EventView::Failure,
            },
            Action::ListDirectory { directory } => match self.files_of(directory as int) {
                Some(files) => EventView::Listing(file_listing(files)),
                None => EventView::Failure,
            },
            Action::ReadFile { directory, file } => match self.files_of(directory as int) {
                Some(files) => if file < files.len() {
                    match files[file as int].content {
                        Some(text) => EventView::Content(text),
                        None => EventView::Failure,
                    }
                } else {
                    EventView::Failure
                },
                None => EventView::Failure,
            },
            Action::Finish => EventView::Failure,
        }
    }

    /// The listing of entry `directory` of `slides`, where there is one.
    pub open spec fn files_of(self, directory: int) -> Option<Seq<FileModel>> {
        match self.slides {
            Some(directories) => if 0 <= directory < directories.len() {
                directories[directory].files
            } else {
                None
            },
            None => None,
        }
    }

    /// The state of a scan of this tree after so many steps from `state`.
    pub open spec fn run(self, state: ScannerView, steps: nat) -> ScannerView
        decreases steps,
    {
        if steps == 0 {
            state
        } else {
            self.run(state.step(self.answer(state.pending)), (steps - 1) as nat)
        }
    }

    /// The metadata files of the tree, in the order in which a scan comes to
    /// them.
    pub open spec fn metadata_files(self) -> Seq<FileModel> {
        match self.slides {
            Some(directories) => tree_files(directories),
            None => Seq::empty(),
        }
    }

    /// The records that a scan of the tree is to find.
    pub open spec fn scan_result(self) -> Seq<PresentationView> {
        found(self.metadata_files())
    }

    /// A number of steps in which every scan of the tree is over.
    pub open spec fn steps_needed(self) -> nat {
        match self.slides {
            Some(directories) => 1 + tree_weight(directories),
            None => 1,
        }
    }
}

/// Those files of a listing that the scan reads, in the order of the listing.
pub open spec fn wanted_files(files: Seq<FileModel>) -> Seq<FileModel>
    decreases files.len(),
{
    if files.len() == 0 {
        Seq::empty()
    } else if wanted(Level::Presentation, file_entry(files[0])) {
        seq![files[0]] + wanted_files(files.drop_first())
    } else {
        wanted_files(files.drop_first())
    }
}

/// The metadata files of one entry of `slides`: none unless the entry is a
/// directory that can be listed.
pub open spec fn directory_files(directory: DirectoryModel) -> Seq<FileModel> {
    if wanted(Level::Slides, directory_entry(directory)) && directory.files is Some {
        wanted_files(directory.files->0)
    } else {
        Seq::empty()
    }
}

/// The metadata files of some entries of `slides`, directory after directory.
pub open spec fn tree_files(directories: Seq<DirectoryModel>) -> Seq<FileModel>
    decreases directories.len(),
{
    if directories.len() == 0 {
        Seq::empty()
    } else {
        directory_files(directories[0]) + tree_files(directories.drop_first())
    }
}

/// The record in a file: there is none where the file cannot be read or its
/// text is not the metadata of a presentation.
pub open spec fn record_in(file: FileModel) -> Option<PresentationView> {
    match file.content {
        Some(text) => match record_of_text(text) {
            Ok(record) => Some(record),
            Err(_) => None,
        },
        None => None,
    }
}

/// The records in some files, in the order of the files; a file without a
/// record is passed over.
pub open spec fn found(files: Seq<FileModel>) -> Seq<PresentationView>
    decreases files.len(),
{
    if files.len() == 0 {
        Seq::empty()
    } else {
        match record_in(files[0]) {
            Some(record) => seq![record] + found(files.drop_first()),
            None => found(files.drop_first()),
        }
    }
}

/// A bound on the steps that a scan spends on some entries of `slides`: one
/// for each entry and one for each entry of its listing.
pub open spec fn tree_weight(directories: Seq<DirectoryModel>) -> nat
    decreases directories.len(),
{
    if directories.len() == 0 {
        0
    } else {
        1 + (match directories[0].files {
            Some(files) => files.len(),
            None => 0,
        }) + tree_weight(directories.drop_first())
    }
}

impl SlidesTree {
    /// The state belongs to a scan of this tree: it is well formed, and the
    /// listings that it holds are those of the tree.
    pub open spec fn in_scan(self, state: ScannerView) -> bool {
        &&& state.well_formed()
        &&& match state.pending {
            Action::ListSlides => true,
            Action::ListDirectory { directory } => {
                &&& self.slides matches Some(directories)
                &&& state.directories == directory_listing(directories)
            },
            Action::ReadFile { directory, file } => {
                &&& self.slides matches Some(directories)
                &&& state.directories == directory_listing(directories)
                &&& self.files_of(directory as int) matches Some(files)
                &&& state.files == file_listing(files)
            },
            Action::Finish => true,
        }
    }

    /// The metadata files that a scan in this state has still to come to.
    pub open spec fn files_ahead(self, state: ScannerView) -> Seq<FileModel> {
        match state.pending {
            Action::ListSlides => self.metadata_files(),
            Action::ListDirectory { directory } => tree_files(
                self.slides->0.skip(directory as int),
            ),
            Action::ReadFile { directory, file } => wanted_files(
                self.files_of(directory as int)->0.skip(file as int),
            ) + tree_files(self.slides->0.skip(directory + 1)),
            Action::Finish => Seq::empty(),
        }
    }

    /// A number of steps in which a scan in this state is over.
    pub open spec fn steps_ahead(self, state: ScannerView) -> nat {
        match state.pending {
            Action::ListSlides => self.steps_needed(),
            Action::ListDirectory { directory } => tree_weight(
                self.slides->0.skip(directory as int),
            ),
            Action::ReadFile { directory, file } => (self.files_of(directory as int)->0.len()
                - file + tree_weight(self.slides->0.skip(directory + 1))) as nat,
            Action::Finish => 0,
        }
    }
}

/// The entries of `slides` that the scan passes over hold no metadata file
/// for it.
proof fn lemma_skip_directories(directories: Seq<DirectoryModel>, from: int)
    requires
        0 <= from <= directories.len(),
    ensures
        ({
            let next = first_wanted(directory_listing(directories), from, Level::Slides);
            &&& tree_files(directories.skip(from)) == tree_files(directories.skip(next))
            &&& tree_weight(directories.skip(next)) <= tree_weight(directories.skip(from))
        }),
    decreases directories.len() - from,
{
    let listing = directory_listing(directories);
    if from < directories.len() {
        assert(listing[from] == directory_entry(directories[from]));
        if !wanted(Level::Slides, listing[from]) {
            let rest = directories.skip(from);
            assert(rest[0] == directories[from]);
            assert(rest.drop_first() =~= directories.skip(from + 1));
            assert(Seq::<FileModel>::empty() + tree_files(rest.drop_first()) =~= tree_files(
                rest.drop_first(),
            ));
            lemma_skip_directories(directories, from + 1);
        }
    }
}

/// The entries of a presentation that the scan passes over are not among
/// the files it reads.
proof fn lemma_skip_files(files: Seq<FileModel>, from: int)
    requires
        0 <= from <= files.len(),
    ensures
        wanted_files(files.skip(from)) == wanted_files(
            files.skip(first_wanted(file_listing(files), from, Level::Presentation)),
        ),
    decreases files.len() - from,
{
    let listing = file_listing(files);
    if from < files.len() {
        assert(listing[from] == file_entry(files[from]));
        if !wanted(Level::Presentation, listing[from]) {
            let rest = files.skip(from);
            assert(rest[0] == files[from]);
            assert(rest.drop_first() =~= files.skip(from + 1));
            lemma_skip_files(files, from + 1);
        }
    }
}

/// The metadata files from entry `at` of `slides` on are those of that entry
/// and then those of the entries behind it.
proof fn lemma_open_directory(directories: Seq<DirectoryModel>, at: int)
    requires
        0 <= at < directories.len(),
    ensures
        tree_files(directories.skip(at)) == directory_files(directories[at]) + tree_files(
            directories.skip(at + 1),
        ),
        tree_weight(directories.skip(at)) == 1 + (match directories[at].files {
            Some(files) => files.len(),
            None => 0,
        }) + tree_weight(directories.skip(at + 1)),
{
    let rest = directories.skip(at);
    assert(rest[0] == directories[at]);
    assert(rest.drop_first() =~= directories.skip(at + 1));
}

/// A wanted file is the first of the files that the scan reads from its
/// place on.
proof fn lemma_open_file(files: Seq<FileModel>, at: int)
    requires
        0 <= at < files.len(),
        wanted(Level::Presentation, file_entry(files[at])),
    ensures
        wanted_files(files.skip(at)) == seq![files[at]] + wanted_files(files.skip(at + 1)),
{
    let rest = files.skip(at);
    assert(rest[0] == files[at]);
    assert(rest.drop_first() =~= files.skip(at + 1));
}

/// The records in a file and the files behind it.
proof fn lemma_found_first(file: FileModel, rest: Seq<FileModel>)
    ensures
        found(seq![file] + rest) == (match record_in(file) {
            Some(record) => seq![record],
            None => Seq::empty(),
        }) + found(rest),
{
    let all = seq![file] + rest;
    assert(all[0] == file);
    assert(all.drop_first() =~= rest);
    assert(Seq::<PresentationView>::empty() + found(rest) =~= found(rest));
}

/// One step of a scan of a tree: the state stays in the scan, no record is
/// lost or made up, and the scan comes nearer to its end.
pub proof fn lemma_step_in_scan(tree: SlidesTree, state: ScannerView)
    requires
        tree.fits(),
        tree.in_scan(state),
    ensures
        ({
            let next = state.step(tree.answer(state.pending));
            &&& tree.in_scan(next)
            &&& next.records + found(tree.files_ahead(next)) == state.records + found(
                tree.files_ahead(state),
            )
            &&& state.pending != Action::Finish ==> tree.steps_ahead(next) < tree.steps_ahead(state)
        }),
{
    let event = tree.answer(state.pending);
    let next = state.step(event);
    let waiting = ScannerView { rejected: None, ..state };
    match state.pending {
        Action::ListSlides => {
            assert(state.records =~= Seq::empty());
            match tree.slides {
                Some(directories) => {
                    lemma_enter_directory(
                        tree,
                        ScannerView { directories: directory_listing(directories), ..waiting },
                        0,
                    );
                    assert(directories.skip(0) =~= directories);
                },
                None => {},
            }
        },
        Action::ListDirectory { directory } => {
            let directories = tree.slides->0;
            let at = directory as int;
            assert(state.directories[at] == directory_entry(directories[at]));
            lemma_open_directory(directories, at);
            match directories[at].files {
                Some(files) => {
                    lemma_enter_file(
                        tree,
                        ScannerView { files: file_listing(files), ..waiting },
                        at,
                        0,
                    );
                    assert(files.skip(0) =~= files);
                },
                None => {
                    lemma_enter_directory(tree, waiting, at + 1);
                    assert(Seq::<FileModel>::empty() + tree_files(directories.skip(at + 1))
                        =~= tree_files(directories.skip(at + 1)));
                },
            }
        },
        Action::ReadFile { directory, file } => {
            let directories = tree.slides->0;
            let files = tree.files_of(directory as int)->0;
            let at = file as int;
            let behind = tree_files(directories.skip(directory + 1));
            assert(state.files[at] == file_entry(files[at]));
            lemma_open_file(files, at);
            let read = match event {
                EventView::Content(text) => match record_of_text(text) {
                    Ok(record) => ScannerView { records: state.records.push(record), ..waiting },
                    Err(error) => ScannerView { rejected: Some(error), ..waiting },
                },
                _ => waiting,
            };
            lemma_enter_file(tree, read, directory as int, at + 1);
            let later = wanted_files(files.skip(at + 1)) + behind;
            assert(seq![files[at]] + wanted_files(files.skip(at + 1)) + behind =~= seq![files[at]]
                + later);
            lemma_found_first(files[at], later);
            match record_in(files[at]) {
                Some(record) => {
                    assert(read.records =~= state.records + seq![record]);
                    assert(state.records + (seq![record] + found(later)) =~= state.records
                        + seq![record] + found(later));
                },
                None => {
                    assert(read.records == state.records);
                },
            }
        },
        Action::Finish => {},
    }
}

/// Where a scan turns to the next directory, it lands in the scan of the
/// tree with the same files ahead.
proof fn lemma_enter_directory(tree: SlidesTree, state: ScannerView, from: int)
    requires
        tree.fits(),
        tree.slides matches Some(directories) && state.directories == directory_listing(
            directories,
        ) && 0 <= from <= directories.len(),
    ensures
        ({
            let next = state.enter_directory(from);
            &&& tree.in_scan(next)
            &&& next.records == state.records
            &&& next.rejected == state.rejected
            &&& tree.files_ahead(next) == tree_files(tree.slides->0.skip(from))
            &&& tree.steps_ahead(next) <= tree_weight(tree.slides->0.skip(from))
        }),
{
    let directories = tree.slides->0;
    let listing = directory_listing(directories);
    crate::scan::lemma_first_wanted(listing, from, Level::Slides);
    lemma_skip_directories(directories, from);
    let at = first_wanted(listing, from, Level::Slides);
    if at == directories.len() {
        assert(tree_files(directories.skip(at)) =~= Seq::empty());
    }
}

/// Where a scan turns to the next file of a presentation, it lands in the
/// scan of the tree with the same files ahead.
proof fn lemma_enter_file(tree: SlidesTree, state: ScannerView, directory: int, from: int)
    requires
        tree.fits(),
        tree.slides matches Some(directories) && state.directories == directory_listing(
            directories,
        ) && 0 <= directory < directories.len() && wanted(
            Level::Slides,
            directory_entry(directories[directory]),
        ),
        tree.files_of(directory) matches Some(files) && state.files == file_listing(files) && 0
            <= from <= files.len(),
    ensures
        ({
            let next = state.enter_file(directory, from);
            &&& tree.in_scan(next)
            &&& next.records == state.records
            &&& next.rejected == state.rejected
            &&& tree.files_ahead(next) == wanted_files(tree.files_of(directory)->0.skip(from))
                + tree_files(tree.slides->0.skip(directory + 1))
            &&& tree.steps_ahead(next) <= tree.files_of(directory)->0.len() - from + tree_weight(
                tree.slides->0.skip(directory + 1),
            )
        }),
{
    let directories = tree.slides->0;
    let files = tree.files_of(directory)->0;
    let listing = file_listing(files);
    crate::scan::lemma_first_wanted(listing, from, Level::Presentation);
    lemma_skip_files(files, from);
    let at = first_wanted(listing, from, Level::Presentation);
    assert(directory_listing(directories)[directory] == directory_entry(directories[directory]));
    if at == files.len() {
        lemma_enter_directory(tree, state, directory + 1);
        assert(wanted_files(files.skip(at)) =~= Seq::empty());
        assert(Seq::<FileModel>::empty() + tree_files(directories.skip(directory + 1))
            =~= tree_files(directories.skip(directory + 1)));
    } else {
        assert(listing[at] == file_entry(files[at]));
    }
}

/// From any state of a scan of a tree, enough steps end the scan with the
/// records found so far and then those of the files still ahead.
proof fn lemma_run_to_end(tree: SlidesTree, state: ScannerView, steps: nat)
    requires
        tree.fits(),
        tree.in_scan(state),
        steps >= tree.steps_ahead(state),
    ensures
        tree.run(state, steps).pending == Action::Finish,
        tree.run(state, steps).records == state.records + found(tree.files_ahead(state)),
    decreases steps,
{
    if let Action::ListDirectory { directory } = state.pending {
        lemma_open_directory(tree.slides->0, directory as int);
    }
    if steps == 0 {
        assert(state.records + found(tree.files_ahead(state)) =~= state.records);
    } else {
        lemma_step_in_scan(tree, state);
        lemma_run_to_end(tree, state.step(tree.answer(state.pending)), (steps - 1) as nat);
    }
}

/// A scan finds the records of the tree's metadata files and no others.
///
/// Run against any tree, the scanner is over after `steps_needed` steps or
/// fewer; it then holds the record of every metadata file that can be read
/// and is well formed, in the order in which the listings name the files.
pub proof fn lemma_scan_finds_the_records(tree: SlidesTree, steps: nat)
    requires
        tree.fits(),
        steps >= tree.steps_needed(),
    ensures
        tree.run(ScannerView::start(), steps).pending == Action::Finish,
        tree.run(ScannerView::start(), steps).records == tree.scan_result(),
{
    let start = ScannerView::start();
    lemma_run_to_end(tree, start, steps);
    assert(start.records + tree.scan_result() =~= tree.scan_result());
}

/// The records in two runs of files are those of the first run and then
/// those of the second.
pub proof fn lemma_found_concat(first: Seq<FileModel>, second: Seq<FileModel>)
    ensures
        found(first + second) == found(first) + found(second),
    decreases first.len(),
{
    let all = first + second;
    if first.len() == 0 {
        assert(all =~= second);
        assert(Seq::<PresentationView>::empty() + found(second) =~= found(second));
    } else {
        assert(all[0] == first[0]);
        assert(all.drop_first() =~= first.drop_first() + second);
        lemma_found_concat(first.drop_first(), second);
        match record_in(first[0]) {
            Some(record) => {
                assert(seq![record] + (found(first.drop_first()) + found(second)) =~= seq![record]
                    + found(first.drop_first()) + found(second));
            },
            None => {},
        }
    }
}

/// There are never more records than files.
pub proof fn lemma_found_bound(files: Seq<FileModel>)
    ensures
        found(files).len() <= files.len(),
    decreases files.len(),
{
    if files.len() > 0 {
        lemma_found_bound(files.drop_first());
    }
}

/// Every file counts for itself: the records in some files are those of the
/// files before one of them, then the record in that file if it has one,
/// then those of the files behind it. So a file without a record takes
/// nothing from the others and adds nothing to them.
pub proof fn lemma_found_around(files: Seq<FileModel>, at: int)
    requires
        0 <= at < files.len(),
    ensures
        found(files) == found(files.take(at)) + (match record_in(files[at]) {
            Some(record) => seq![record],
            None => Seq::empty(),
        }) + found(files.skip(at + 1)),
{
    let before = files.take(at);
    let behind = files.skip(at + 1);
    assert(files =~= before + (seq![files[at]] + behind));
    lemma_found_concat(before, seq![files[at]] + behind);
    lemma_found_first(files[at], behind);
    let own = match record_in(files[at]) {
        Some(record) => seq![record],
        None => Seq::empty(),
    };
    assert(found(before) + (own + found(behind)) =~= found(before) + own + found(behind));
}

/// Where every file holds a record, there is one record for each file: the
/// record at a place is that of the file at that place.
pub proof fn lemma_found_all(files: Seq<FileModel>)
    requires
        forall|i: int| 0 <= i < files.len() ==> record_in(#[trigger] files[i]) is Some,
    ensures
        found(files).len() == files.len(),
        forall|i: int| 0 <= i < files.len() ==> Some(#[trigger] found(files)[i]) == record_in(files[i]),
    decreases files.len(),
{
    if files.len() > 0 {
        let rest = files.drop_first();
        assert forall|i: int| 0 <= i < rest.len() implies record_in(#[trigger] rest[i]) is Some by {
            assert(rest[i] == files[i + 1]);
        }
        lemma_found_all(rest);
        assert(record_in(files[0]) is Some);
        assert forall|i: int| 0 <= i < files.len() implies Some(#[trigger] found(files)[i])
            == record_in(files[i]) by {
            if i > 0 {
                assert(found(files)[i] == found(rest)[i - 1]);
                assert(rest[i - 1] == files[i]);
            }
        }
    }
}

/// A tree whose `slides` directory is missing, cannot be listed or is empty
/// has no metadata files.
pub proof fn lemma_no_slides_no_files(tree: SlidesTree)
    requires
        tree.slides matches Some(directories) ==> directories.len() == 0,
    ensures
        tree.metadata_files().len() == 0,
{
}

/// A tree without metadata files has no records, and its page is the bare
/// frame.
pub proof fn lemma_nothing_to_find(tree: SlidesTree)
    requires
        tree.metadata_files().len() == 0,
    ensures
        tree.scan_result().len() == 0,
        document(tree.scan_result()) == page_head() + page_tail(),
{
    assert(tree.scan_result() =~= Seq::empty());
    lemma_page_without_records();
}

/// Where every metadata file of a tree can be read and is well formed, the
/// page has exactly one link for each of them: link `i` is made of the name
/// and the path in file `i`, and it stands on the page word for word.
pub proof fn lemma_page_of_well_formed_files(tree: SlidesTree)
    requires
        forall|i: int|
            0 <= i < tree.metadata_files().len() ==> record_in(#[trigger] tree.metadata_files()[i])
                is Some,
    ensures
        link_elements(tree.scan_result()).len() == tree.metadata_files().len(),
        forall|i: int|
            0 <= i < tree.metadata_files().len() ==> {
                let link = link_element(record_in(tree.metadata_files()[i])->0);
                &&& #[trigger] link_elements(tree.scan_result())[i] == link
                &&& occurs_in(document(tree.scan_result()), link)
            },
{
    let files = tree.metadata_files();
    let records = tree.scan_result();
    lemma_found_all(files);
    assert forall|i: int| 0 <= i < files.len() implies {
        let link = link_element(record_in(files[i])->0);
        &&& #[trigger] link_elements(records)[i] == link
        &&& occurs_in(document(records), link)
    } by {
        assert(Some(records[i]) == record_in(files[i]));
        lemma_page_holds_link(records, i);
    }
}

} // verus!
