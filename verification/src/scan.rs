//! The scan of the `slides` directory, as a machine that asks for one
//! listing or one file at a time.
//!
//! The machine does no input or output. It names the next thing it needs
//! ([`Scanner::pending`]); whoever runs it gets that from the file system and
//! hands back what came out ([`Scanner::step`]). A listing or a file that
//! cannot be had is passed over and never ends the scan.

use crate::file_name::{is_metadata_file, is_metadata_name};
use crate::metadata::{outcome_view, parse_presentation, record_of_text, MetadataError};
use crate::record::{records_view, PresentationInfo, PresentationView};
use vstd::prelude::*;

verus! {

/// One entry of a directory listing.
#[derive(Debug, Clone, PartialEq, Eq)]
pub struct Entry {
    /// The entry's file name, without the directory it stands in.
    pub name: String,
    /// Whether the entry is itself a directory.
    pub is_dir: bool,
}

/// The mathematical content of an [`Entry`].
pub ghost struct EntryView {
    pub name: Seq<char>,
    pub is_dir: bool,
}

impl View for Entry {
    type V = EntryView;

    open spec fn view(&self) -> EntryView {
        EntryView { name: self.name@, is_dir: self.is_dir }
    }
}

/// The contents of a listing, in order.
pub open spec fn entries_view(entries: Seq<Entry>) -> Seq<EntryView> {
    entries.map_values(|e: Entry| e@)
}

/// The two levels of the tree that the scan looks at.
#[derive(Debug, Clone, Copy, PartialEq, Eq, Structural)]
pub enum Level {
    /// The `slides` directory, whose entries are the presentations.
    Slides,
    /// The directory of one presentation.
    Presentation,
}

/// What the scan needs next. Entries are named by their place in the
/// listing that was handed to the scan, counted from 0.
#[derive(Debug, Clone, Copy, PartialEq, Eq, Structural)]
pub enum Action {
    /// List the `slides` directory.
    ListSlides,
    /// List the directory that is entry `directory` of `slides`.
    ListDirectory { directory: usize },
    /// Read the file that is entry `file` of the directory `directory`.
    ReadFile { directory: usize, file: usize },
    /// Nothing: the scan is over.
    Finish,
}

/// What came of the last [`Action`].
#[derive(Debug, Clone, PartialEq, Eq)]
pub enum Event {
    /// The entries of the directory, in the order in which they were listed.
    Listing(Vec<Entry>),
    /// The text of the file.
    Content(String),
    /// The directory could not be listed, or the file could not be read.
    Failure,
}

/// The mathematical content of an [`Event`].
pub ghost enum EventView {
    Listing(Seq<EntryView>),
    Content(Seq<char>),
    Failure,
}

impl View for Event {
    type V = EventView;

    open spec fn view(&self) -> EventView {
        match self {
            Event::Listing(entries) => EventView::Listing(entries_view(entries@)),
            Event::Content(text) => EventView::Content(text@),
            Event::Failure => EventView::Failure,
        }
    }
}

/// Whether the scan goes into an entry: at the level of `slides` into every
/// directory, inside a presentation into every metadata file that is not a
/// directory.
pub open spec fn wanted(level: Level, entry: EntryView) -> bool {
    match level {
        Level::Slides => entry.is_dir,
        Level::Presentation => !entry.is_dir && is_metadata_name(entry.name),
    }
}

/// The place of the first wanted entry at or behind `from`, or the length of
/// the listing where there is none.
pub open spec fn first_wanted(entries: Seq<EntryView>, from: int, level: Level) -> int
    decreases entries.len() - from,
{
    if 0 <= from < entries.len() {
        if wanted(level, entries[from]) {
            from
        } else {
            first_wanted(entries, from + 1, level)
        }
    } else {
        entries.len() as int
    }
}

/// The state of a scan.
pub ghost struct ScannerView {
    /// What the scan is waiting for.
    pub pending: Action,
    /// The listing of `slides`, once it has come.
    pub directories: Seq<EntryView>,
    /// The listing of the presentation that is being scanned.
    pub files: Seq<EntryView>,
    /// The records found so far, in the order in which they were found.
    pub records: Seq<PresentationView>,
    /// Why the file of the last step was rejected, if it was read and
    /// rejected.
    pub rejected: Option<MetadataError>,
}

impl ScannerView {
    /// The state in which every scan begins.
    pub open spec fn start() -> ScannerView {
        ScannerView {
            pending: Action::ListSlides,
            directories: Seq::empty(),
            files: Seq::empty(),
            records: Seq::empty(),
            rejected: None,
        }
    }

    /// The scan turns to the first directory at or behind `from`, or ends
    /// where there is none.
    pub open spec fn enter_directory(self, from: int) -> ScannerView {
        let directory = first_wanted(self.directories, from, Level::Slides);
        ScannerView {
            pending: if directory < self.directories.len() {
                Action::ListDirectory { directory: directory as usize }
            } else {
                Action::Finish
            },
            files: Seq::empty(),
            ..self
        }
    }

    /// The scan turns to the first metadata file at or behind `from` in the
    /// presentation `directory`, or to the next directory where there is none.
    pub open spec fn enter_file(self, directory: int, from: int) -> ScannerView {
        let file = first_wanted(self.files, from, Level::Presentation);
        if file < self.files.len() {
            ScannerView {
                pending: Action::ReadFile { directory: directory as usize, file: file as usize },
                ..self
            }
        } else {
            self.enter_directory(directory + 1)
        }
    }

    /// The state after an event.
    ///
    /// A listing of `slides` sends the scan into its first directory; a
    /// listing of a presentation, into its first metadata file. A text that
    /// was read is parsed, and the record joins those found if there is one.
    /// Then, and likewise after a failure or an event of another kind than
    /// the one awaited, the scan goes on behind the entry it was at. A scan
    /// that is over stays as it is.
    pub open spec fn step(self, event: EventView) -> ScannerView {
        let waiting = ScannerView { rejected: None, ..self };
        match self.pending {
            Action::ListSlides => match event {
                EventView::Listing(entries) => ScannerView {
                    directories: entries,
                    ..waiting
                }.enter_directory(0),
                _ => ScannerView { pending: Action::Finish, ..waiting },
            },
            Action::ListDirectory { directory } => match event {
                EventView::Listing(entries) => ScannerView { files: entries, ..waiting }.enter_file(
                    directory as int,
                    0,
                ),
                _ => waiting.enter_directory(directory + 1),
            },
            Action::ReadFile { directory, file } => {
                let read = match event {
                    EventView::Content(text) => match record_of_text(text) {
                        Ok(record) => ScannerView { records: self.records.push(record), ..waiting },
                        Err(error) => ScannerView { rejected: Some(error), ..waiting },
                    },
                    _ => waiting,
                };
                read.enter_file(directory as int, file + 1)
            },
            Action::Finish => self,
        }
    }

    /// What holds of every state that a scan can reach: the entry that the
    /// scan is at exists and is one that the scan goes into.
    pub open spec fn well_formed(self) -> bool {
        &&& self.directories.len() <= usize::MAX
        &&& self.files.len() <= usize::MAX
        &&& match self.pending {
            Action::ListSlides => {
                &&& self.directories.len() == 0
                &&& self.files.len() == 0
                &&& self.records.len() == 0
                &&& self.rejected is None
            },
            Action::ListDirectory { directory } => {
                &&& directory < self.directories.len()
                &&& wanted(Level::Slides, self.directories[directory as int])
                &&& self.files.len() == 0
            },
            Action::ReadFile { directory, file } => {
                &&& directory < self.directories.len()
                &&& wanted(Level::Slides, self.directories[directory as int])
                &&& file < self.files.len()
                &&& wanted(Level::Presentation, self.files[file as int])
            },
            Action::Finish => true,
        }
    }
}

/// The first wanted entry is in the listing or at its end, not before
/// `from`, and is wanted if it is in the listing.
pub proof fn lemma_first_wanted(entries: Seq<EntryView>, from: int, level: Level)
    requires
        0 <= from <= entries.len(),
    ensures
        from <= first_wanted(entries, from, level) <= entries.len(),
        first_wanted(entries, from, level) < entries.len() ==> wanted(
            level,
            entries[first_wanted(entries, from, level)],
        ),
        forall|k: int| from <= k < first_wanted(entries, from, level) ==> !wanted(level, entries[k]),
    decreases entries.len() - from,
{
    if from < entries.len() && !wanted(level, entries[from]) {
        lemma_first_wanted(entries, from + 1, level);
    }
}

/// Every step of a scan leads from a well-formed state to a well-formed
/// state, as long as the listings are of a length that a machine can hold.
pub proof fn lemma_step_well_formed(state: ScannerView, event: EventView)
    requires
        state.well_formed(),
        event matches EventView::Listing(entries) ==> entries.len() <= usize::MAX,
    ensures
        state.step(event).well_formed(),
{
    let waiting = ScannerView { rejected: None, ..state };
    match state.pending {
        Action::ListSlides => {
            if let EventView::Listing(entries) = event {
                lemma_first_wanted(entries, 0, Level::Slides);
            }
        },
        Action::ListDirectory { directory } => {
            lemma_first_wanted(state.directories, directory + 1, Level::Slides);
            if let EventView::Listing(entries) = event {
                lemma_first_wanted(entries, 0, Level::Presentation);
            }
        },
        Action::ReadFile { directory, file } => {
            lemma_first_wanted(state.directories, directory + 1, Level::Slides);
            lemma_first_wanted(state.files, file + 1, Level::Presentation);
        },
        Action::Finish => {},
    }
}

/// Tells whether the scan goes into an entry.
pub fn is_wanted(level: Level, entry: &Entry) -> (goes_in: bool)
    ensures
        goes_in == wanted(level, entry@),
{
    match level {
        Level::Slides => entry.is_dir,
        Level::Presentation => !entry.is_dir && is_metadata_file(entry.name.as_str()),
    }
}

/// Finds the first wanted entry at or behind `from`.
pub fn find_wanted(entries: &Vec<Entry>, from: usize, level: Level) -> (found: usize)
    ensures
        found == first_wanted(entries_view(entries@), from as int, level),
{
    let ghost listing = entries_view(entries@);
    let mut at = from;
    while at < entries.len() && !is_wanted(level, &entries[at])
        invariant
            listing == entries_view(entries@),
            from <= at,
            first_wanted(listing, at as int, level) == first_wanted(listing, from as int, level),
        decreases entries.len() - at,
    {
        at += 1;
    }
    if at < entries.len() {
        at
    } else {
        entries.len()
    }
}

/// A scan in progress.
pub struct Scanner {
    pending: Action,
    directories: Vec<Entry>,
    files: Vec<Entry>,
    records: Vec<PresentationInfo>,
    rejected: Option<MetadataError>,
}

impl View for Scanner {
    type V = ScannerView;

    closed spec fn view(&self) -> ScannerView {
        ScannerView {
            pending: self.pending,
            directories: entries_view(self.directories@),
            files: entries_view(self.files@),
            records: records_view(self.records@),
            rejected: self.rejected,
        }
    }
}

impl Scanner {
    #[verifier::type_invariant]
    spec fn reachable(&self) -> bool {
        self@.well_formed()
    }

    /// Begins a scan. The first thing it needs is the listing of `slides`.
    pub fn new() -> (scanner: Scanner)
        ensures
            scanner@ == ScannerView::start(),
    {
        let directories: Vec<Entry> = Vec::new();
        let files: Vec<Entry> = Vec::new();
        let records: Vec<PresentationInfo> = Vec::new();
        assert(entries_view(directories@) =~= Seq::empty());
        assert(entries_view(files@) =~= Seq::empty());
        assert(records_view(records@) =~= Seq::empty());
        Scanner { pending: Action::ListSlides, directories, files, records, rejected: None }
    }

    /// What the scan needs next.
    pub fn pending(&self) -> (action: Action)
        ensures
            action == self@.pending,
    {
        self.pending
    }

    /// Takes what came of the pending action and moves on.
    ///
    /// The outcome is a function of the state and the event: see
    /// [`ScannerView::step`].
    pub fn step(self, event: Event) -> (next: Scanner)
        ensures
            next@ == self@.step(event@),
    {
        proof {
            use_type_invariant(&self);
        }
        match self.pending {
            Action::ListSlides => match event {
                Event::Listing(entries) => Scanner::enter_directory(entries, 0, self.records, None),
                _ => Scanner {
                    pending: Action::Finish,
                    directories: self.directories,
                    files: self.files,
                    records: self.records,
                    rejected: None,
                },
            },
            Action::ListDirectory { directory } => match event {
                Event::Listing(entries) => Scanner::enter_file(
                    self.directories,
                    directory,
                    entries,
                    0,
                    self.records,
                    None,
                ),
                _ => Scanner::enter_directory(self.directories, directory + 1, self.records, None),
            },
            Action::ReadFile { directory, file } => {
                let mut records = self.records;
                let mut rejected: Option<MetadataError> = None;
                if let Event::Content(text) = event {
                    match parse_presentation(text.as_str()) {
                        Ok(record) => {
                            assert(records_view(records@.push(record)) =~= records_view(
                                records@,
                            ).push(record@));
                            records.push(record);
                        },
                        Err(error) => {
                            rejected = Some(error);
                        },
                    }
                }
                Scanner::enter_file(self.directories, directory, self.files, file + 1, records, rejected)
            },
            Action::Finish => self,
        }
    }

    /// Turns to the first directory at or behind `from`.
    fn enter_directory(
        directories: Vec<Entry>,
        from: usize,
        records: Vec<PresentationInfo>,
        rejected: Option<MetadataError>,
    ) -> (next: Scanner)
        requires
            from <= directories.len(),
        ensures
            next@ == (ScannerView {
                pending: Action::Finish,
                directories: entries_view(directories@),
                files: Seq::empty(),
                records: records_view(records@),
                rejected,
            }).enter_directory(from as int),
    {
        proof {
            lemma_first_wanted(entries_view(directories@), from as int, Level::Slides);
        }
        let directory = find_wanted(&directories, from, Level::Slides);
        let pending = if directory < directories.len() {
            Action::ListDirectory { directory }
        } else {
            Action::Finish
        };
        let files: Vec<Entry> = Vec::new();
        assert(entries_view(files@) =~= Seq::empty());
        Scanner { pending, directories, files, records, rejected }
    }

    /// Turns to the first metadata file at or behind `from` in the
    /// presentation `directory`.
    fn enter_file(
        directories: Vec<Entry>,
        directory: usize,
        files: Vec<Entry>,
        from: usize,
        records: Vec<PresentationInfo>,
        rejected: Option<MetadataError>,
    ) -> (next: Scanner)
        requires
            directory < directories.len(),
            wanted(Level::Slides, directories[directory as int]@),
            from <= files.len(),
        ensures
            next@ == (ScannerView {
                pending: Action::Finish,
                directories: entries_view(directories@),
                files: entries_view(files@),
                records: records_view(records@),
                rejected,
            }).enter_file(directory as int, from as int),
    {
        proof {
            lemma_first_wanted(entries_view(files@), from as int, Level::Presentation);
        }
        let file = find_wanted(&files, from, Level::Presentation);
        if file < files.len() {
            Scanner { pending: Action::ReadFile { directory, file }, directories, files, records, rejected }
        } else {
            Scanner::enter_directory(directories, directory + 1, records, rejected)
        }
    }

    /// Why the file that the last step read was rejected, if it was.
    pub fn rejected(&self) -> (error: Option<MetadataError>)
        ensures
            error == self@.rejected,
    {
        self.rejected
    }

    /// The records found so far, in the order in which they were found.
    pub fn into_records(self) -> (records: Vec<PresentationInfo>)
        ensures
            records_view(records@) == self@.records,
            records@.len() == self@.records.len(),
    {
        self.records
    }
}

} // verus!
