//! The configuration of a run and the commands that it produces.
//!
//! The caller observes the working directory; the manager turns the
//! observations into commands. Files are handled one by one, so that a
//! caller may spread them over workers: the only state shared between
//! files is the map of target directories.

use crate::date::CalendarDate;
use crate::destinations::Destinations;
use crate::error::ArrangeError;
use crate::exifreader::ExifData;
use crate::filesearch::{TargetMap, TargetType};
use crate::filesearch::texts;
use crate::filetype::{classify, FileType};
use crate::iocommands::{
    move_line, FileOperation, IOCommand, MkDir, MoveFile, OperationView, RmEmptyDir,
};
use crate::path::{file_name, file_name_of, join, joined};
use crate::text::eq_text;
use vstd::prelude::*;
use vstd::string::*;

verus! {

/// A file with what is known of it.
#[derive(Debug, Clone)]
pub struct FileInfo {
    pub path: String,
    pub exif: ExifData,
    pub f_type: FileType,
}

/// The configuration of a run.
#[derive(Debug)]
pub struct Manager {
    /// The directory whose folders are arranged.
    pub work_dir: String,
    /// Whether raw files go to a folder of their own below the date.
    pub separate_raw: bool,
    /// The name of that folder.
    pub raw_folder: String,
    /// Whether commands are only shown.
    pub dry_run: bool,
    /// The extensions of raw files.
    pub raw_exts: Vec<String>,
}

/// The commands for one file, with their texts as sequences.
pub struct CommandsView {
    /// Source and destination of the move.
    pub move_file: Option<(Seq<char>, Seq<char>)>,
    /// The directory to create first.
    pub mk_dir: Option<Seq<char>>,
}

impl CommandsView {
    pub open spec fn empty() -> CommandsView {
        CommandsView { move_file: None, mk_dir: None }
    }
}

/// The commands that one file gives rise to: at most one move, and with it
/// at most one new directory.
#[derive(Debug)]
pub struct FileProcessCommands {
    pub move_file: Option<MoveFile>,
    pub possible_mk_dir: Option<MkDir>,
}

impl View for FileProcessCommands {
    type V = CommandsView;

    open spec fn view(&self) -> CommandsView {
        CommandsView {
            move_file: match self.move_file {
                Some(m) => Some((m.from@, m.to@)),
                None => None,
            },
            mk_dir: match self.possible_mk_dir {
                Some(d) => Some(d.target@),
                None => None,
            },
        }
    }
}

impl FileProcessCommands {
    /// No commands.
    pub fn new_empty() -> (r: FileProcessCommands)
        ensures
            r@ == CommandsView::empty(),
    {
        FileProcessCommands { move_file: None, possible_mk_dir: None }
    }

    /// A move, with the directory to create for it where there is one.
    pub fn new(move_file: MoveFile, possible_mk_dir: Option<MkDir>) -> (r: FileProcessCommands)
        ensures
            r.move_file == Some(move_file),
            r.possible_mk_dir == possible_mk_dir,
    {
        FileProcessCommands { move_file: Some(move_file), possible_mk_dir }
    }

    /// Whether the file is left where it is.
    pub fn is_empty(&self) -> (r: bool)
        ensures
            r == (self@.move_file is None),
    {
        self.move_file.is_none()
    }
}

/// A map of target directories as a mathematical map.
pub type Targets = Map<TargetType, Seq<char>>;

/// What a run hands from one file to the next: the target directories
/// known so far, and the destinations that its moves have claimed.
pub struct State {
    pub targets: Targets,
    pub planned: Set<Seq<char>>,
}

/// The state with the given parts.
pub open spec fn state_of(targets: Targets, planned: Set<Seq<char>>) -> State {
    State { targets, planned }
}

/// The state at the start of a run: no destination is claimed.
pub open spec fn start_of(targets: Targets) -> State {
    State { targets, planned: Set::empty() }
}

impl Manager {
    /// The key under which a file of the given kind and date is filed: the
    /// raw bucket for a raw file when raw files are kept apart, else the
    /// image bucket.
    pub open spec fn key_for(&self, f_type: FileType, date: CalendarDate) -> TargetType {
        if f_type == FileType::RAW && self.separate_raw {
            TargetType::RAW(date)
        } else {
            TargetType::IMAGE(date)
        }
    }

    /// The directory that is created for a key: the date below the working
    /// directory, and for the raw bucket the raw folder below that.
    pub open spec fn target_path(&self, key: TargetType) -> Seq<char> {
        let date_folder = joined(self.work_dir@, key.date().text());
        match key {
            TargetType::RAW(_) => joined(date_folder, self.raw_folder@),
            TargetType::IMAGE(_) => date_folder,
        }
    }

    /// The directory that a key resolves to: the one already bound to it,
    /// else the one that is created for it.
    pub open spec fn resolved_path(&self, targets: Targets, key: TargetType) -> Seq<char> {
        if targets.contains_key(key) {
            targets[key]
        } else {
            self.target_path(key)
        }
    }

    /// The map after a key has been resolved.
    pub open spec fn resolved_targets(&self, targets: Targets, key: TargetType) -> Targets {
        if targets.contains_key(key) {
            targets
        } else {
            targets.insert(key, self.target_path(key))
        }
    }

    /// Where a file would be moved to; `None` where its path names no file.
    pub open spec fn destination_of(
        &self,
        targets: Targets,
        path: Seq<char>,
        f_type: FileType,
        date: CalendarDate,
    ) -> Option<Seq<char>> {
        match file_name_of(path) {
            Some(name) => Some(joined(self.resolved_path(targets, self.key_for(f_type, date)), name)),
            None => None,
        }
    }

    /// The commands for one file and the state after it. A path without
    /// file name gives nothing and leaves the state alone. Otherwise the key
    /// is resolved. A destination that exists, or that an earlier move of
    /// the run has claimed, gives no command. Else the file is moved and
    /// claims its destination, and the directory is created where this file
    /// was the first of its key.
    pub open spec fn file_commands(
        &self,
        state: State,
        path: Seq<char>,
        f_type: FileType,
        date: CalendarDate,
        destination_exists: bool,
    ) -> (State, CommandsView) {
        match file_name_of(path) {
            None => (state, CommandsView::empty()),
            Some(name) => {
                let key = self.key_for(f_type, date);
                let dir = self.resolved_path(state.targets, key);
                let after = self.resolved_targets(state.targets, key);
                let to = joined(dir, name);
                if destination_exists || state.planned.contains(to) {
                    (State { targets: after, planned: state.planned }, CommandsView::empty())
                } else {
                    (
                        State { targets: after, planned: state.planned.insert(to) },
                        CommandsView {
                            move_file: Some((path, to)),
                            mk_dir: if state.targets.contains_key(key) {
                                None
                            } else {
                                Some(dir)
                            },
                        },
                    )
                }
            },
        }
    }

    /// The configuration to start from: the current directory, raw files
    /// kept apart in `raw`, commands carried out.
    pub fn new(raw_exts: Vec<String>) -> (r: Manager)
        ensures
            r.work_dir@ == seq!['.'],
            r.separate_raw,
            r.raw_folder@ == seq!['r', 'a', 'w'],
            !r.dry_run,
            r.raw_exts == raw_exts,
    {
        proof {
            reveal_strlit(".");
            reveal_strlit("raw");
            assert("."@ =~= seq!['.']);
            assert("raw"@ =~= seq!['r', 'a', 'w']);
        }
        Manager {
            work_dir: String::from_str("."),
            separate_raw: true,
            raw_folder: String::from_str("raw"),
            raw_exts,
            dry_run: false,
        }
    }

    /// The same configuration for another working directory.
    pub fn work_dir(self, value: &str) -> (r: Manager)
        ensures
            r.work_dir@ == value@,
            r.separate_raw == self.separate_raw,
            r.raw_folder == self.raw_folder,
            r.dry_run == self.dry_run,
            r.raw_exts == self.raw_exts,
    {
        Manager {
            work_dir: String::from_str(value),
            separate_raw: self.separate_raw,
            raw_folder: self.raw_folder,
            dry_run: self.dry_run,
            raw_exts: self.raw_exts,
        }
    }

    /// The same configuration, with commands only shown.
    pub fn dry_run(self) -> (r: Manager)
        ensures
            r.dry_run,
            r.work_dir == self.work_dir,
            r.separate_raw == self.separate_raw,
            r.raw_folder == self.raw_folder,
            r.raw_exts == self.raw_exts,
    {
        Manager {
            work_dir: self.work_dir,
            separate_raw: self.separate_raw,
            raw_folder: self.raw_folder,
            dry_run: true,
            raw_exts: self.raw_exts,
        }
    }

    /// The same configuration, with raw files filed like images.
    pub fn dont_separate_raw(self) -> (r: Manager)
        ensures
            !r.separate_raw,
            r.work_dir == self.work_dir,
            r.raw_folder == self.raw_folder,
            r.dry_run == self.dry_run,
            r.raw_exts == self.raw_exts,
    {
        Manager {
            work_dir: self.work_dir,
            separate_raw: false,
            raw_folder: self.raw_folder,
            dry_run: self.dry_run,
            raw_exts: self.raw_exts,
        }
    }

    /// The kind of an entry whose metadata is worth reading: a file with an
    /// extension. Other entries are never arranged.
    pub fn wanted_kind(&self, path: &str, is_file: bool) -> (r: Option<FileType>)
        ensures
            r == if is_file {
                classify(path@, self.raw_exts@)
            } else {
                None
            },
    {
        if is_file {
            FileType::try_from_path(path, &self.raw_exts)
        } else {
            None
        }
    }

    /// The key under which the file is filed.
    pub fn target_key(&self, f_type: FileType, date: CalendarDate) -> (r: TargetType)
        ensures
            r == self.key_for(f_type, date),
    {
        let put_in_raw_folder = f_type == FileType::RAW && self.separate_raw;
        if put_in_raw_folder {
            TargetType::RAW(date)
        } else {
            TargetType::IMAGE(date)
        }
    }

    /// The directory that is created for a key.
    pub fn new_target(&self, key: TargetType) -> (r: String)
        ensures
            r@ == self.target_path(key),
    {
        match key {
            TargetType::RAW(date) => {
                let text = date.format();
                let date_folder = join(self.work_dir.as_str(), text.as_str());
                join(date_folder.as_str(), self.raw_folder.as_str())
            },
            TargetType::IMAGE(date) => {
                let text = date.format();
                join(self.work_dir.as_str(), text.as_str())
            },
        }
    }

    /// Resolves a key to its directory. A key that is bound keeps its
    /// directory. A free key is bound to the directory that is created for
    /// it, and the flag tells the caller that it made the binding.
    pub fn resolve(&self, targets: &mut TargetMap, key: TargetType) -> (r: (String, bool))
        ensures
            r.0@ == self.resolved_path(old(targets)@, key),
            r.1 == !old(targets)@.contains_key(key),
            final(targets)@ == self.resolved_targets(old(targets)@, key),
    {
        match targets.get(&key) {
            Some(path) => (path, false),
            None => {
                let path = self.new_target(key);
                targets.get_or_insert(key, path)
            },
        }
    }

    /// Where the file would be moved to, given the target directories known
    /// so far; `None` where its path names no file. Resolving keys in
    /// between does not change the answer.
    pub fn destination(&self, targets: &TargetMap, file_info: &FileInfo) -> (r: Option<String>)
        ensures
            r is Some == self.destination_of(
                targets@,
                file_info.path@,
                file_info.f_type,
                file_info.exif.date,
            ) is Some,
            r matches Some(d) ==> Some(d@) == self.destination_of(
                targets@,
                file_info.path@,
                file_info.f_type,
                file_info.exif.date,
            ),
    {
        match file_name(file_info.path.as_str()) {
            None => None,
            Some(name) => {
                let key = self.target_key(file_info.f_type, file_info.exif.date);
                let dir = match targets.get(&key) {
                    Some(path) => path,
                    None => self.new_target(key),
                };
                Some(join(dir.as_str(), name))
            },
        }
    }

    /// Makes the commands for one file. One file may need a move and, with
    /// it, a new directory. `destination_exists` says whether something
    /// already stands where `destination` points, and `planned` holds the
    /// destinations that earlier moves of the run have claimed: in either
    /// case the file stays where it is, so that nothing is ever overwritten.
    pub fn make_commands_to_process_image(
        &self,
        folder_per_date: &mut TargetMap,
        planned: &mut Destinations,
        file_info: &FileInfo,
        destination_exists: bool,
    ) -> (r: FileProcessCommands)
        ensures
            (state_of(final(folder_per_date)@, final(planned)@), r@) == self.file_commands(
                state_of(old(folder_per_date)@, old(planned)@),
                file_info.path@,
                file_info.f_type,
                file_info.exif.date,
                destination_exists,
            ),
    {
        self.commands_for(
            folder_per_date,
            planned,
            file_info.path.as_str(),
            file_info.f_type,
            file_info.exif.date,
            destination_exists,
        )
    }

    /// The commands for a file of the given path, kind and capture date.
    pub fn commands_for(
        &self,
        folder_per_date: &mut TargetMap,
        planned: &mut Destinations,
        path: &str,
        f_type: FileType,
        date: CalendarDate,
        destination_exists: bool,
    ) -> (r: FileProcessCommands)
        ensures
            (state_of(final(folder_per_date)@, final(planned)@), r@) == self.file_commands(
                state_of(old(folder_per_date)@, old(planned)@),
                path@,
                f_type,
                date,
                destination_exists,
            ),
    {
        let image_name = match file_name(path) {
            Some(image_name) => image_name,
            None => {
                return FileProcessCommands::new_empty();
            },
        };
        let target_key = self.target_key(f_type, date);
        let (date_dir, created) = self.resolve(folder_per_date, target_key);
        let to = join(date_dir.as_str(), image_name);
        if destination_exists || planned.contains(to.as_str()) {
            FileProcessCommands::new_empty()
        } else {
            planned.insert(to.clone());
            let move_file = MoveFile { from: String::from_str(path), to };
            let possible_mk_dir = if created {
                Some(MkDir { target: date_dir })
            } else {
                None
            };
            FileProcessCommands::new(move_file, possible_mk_dir)
        }
    }

    /// What an entry asks for, where it is to be arranged: it is a file,
    /// has an extension, and its metadata could be read.
    pub open spec fn request_of(&self, e: SourceEntry) -> Option<Request> {
        if !e.is_file {
            None
        } else {
            match (classify(e.path@, self.raw_exts@), e.exif) {
                (Some(f_type), Some(Ok(data))) => Some(
                    Request {
                        path: e.path@,
                        f_type,
                        date: data.date,
                        destination_exists: e.destination_exists,
                    },
                ),
                _ => None,
            }
        }
    }

    /// The requests of the entries of one folder, in order.
    pub open spec fn requests_of(&self, entries: Seq<SourceEntry>) -> Seq<Request>
        decreases entries.len(),
    {
        if entries.len() == 0 {
            Seq::empty()
        } else {
            let rest = self.requests_of(entries.drop_last());
            match self.request_of(entries.last()) {
                Some(r) => rest.push(r),
                None => rest,
            }
        }
    }

    /// The requests of a whole run, folder after folder. A folder that
    /// could not be listed gives none.
    pub open spec fn all_requests(&self, listings: Seq<SourceListing>) -> Seq<Request>
        decreases listings.len(),
    {
        if listings.len() == 0 {
            Seq::empty()
        } else {
            let rest = self.all_requests(listings.drop_last());
            match listings.last().entries {
                Ok(entries) => rest + self.requests_of(entries@),
                Err(_) => rest,
            }
        }
    }

    /// The commands for one request and the state after it.
    pub open spec fn step(&self, state: State, r: Request) -> (State, CommandsView) {
        self.file_commands(state, r.path, r.f_type, r.date, r.destination_exists)
    }

    /// The commands for a sequence of requests, one item for each, and the
    /// state after them. The state is handed from each request to the next.
    pub open spec fn commands_of(&self, state: State, requests: Seq<Request>) -> (
        State,
        Seq<CommandsView>,
    )
        decreases requests.len(),
    {
        if requests.len() == 0 {
            (state, Seq::empty())
        } else {
            let (before, commands) = self.commands_of(state, requests.drop_last());
            let (after, c) = self.step(before, requests.last());
            (after, commands.push(c))
        }
    }

    /// The commands for the entries of one folder and the state after them.
    pub open spec fn folder_commands(&self, state: State, entries: Seq<SourceEntry>) -> (
        State,
        Seq<CommandsView>,
    ) {
        self.commands_of(state, self.requests_of(entries))
    }

    /// The commands of a whole run and the state after it. At the start of
    /// a run no destination is claimed.
    pub open spec fn run_commands(&self, targets: Targets, listings: Seq<SourceListing>) -> (
        State,
        Seq<CommandsView>,
    ) {
        self.commands_of(start_of(targets), self.all_requests(listings))
    }

    /// Handling two runs of requests one after the other is handling their
    /// concatenation.
    pub proof fn lemma_commands_of_concat(&self, state: State, a: Seq<Request>, b: Seq<Request>)
        ensures
            self.commands_of(state, a + b) == ({
                let (middle, first) = self.commands_of(state, a);
                let (after, second) = self.commands_of(middle, b);
                (after, first + second)
            }),
        decreases b.len(),
    {
        let (middle, first) = self.commands_of(state, a);
        if b.len() == 0 {
            assert(a + b =~= a);
            assert(first + Seq::<CommandsView>::empty() =~= first);
        } else {
            assert((a + b).drop_last() =~= a + b.drop_last());
            assert((a + b).last() == b.last());
            self.lemma_commands_of_concat(state, a, b.drop_last());
            let (before, second) = self.commands_of(middle, b.drop_last());
            let (after, c) = self.step(before, b.last());
            assert((first + second).push(c) =~= first + second.push(c));
        }
    }

    /// Makes the commands for the entries of one source folder.
    ///
    /// Entries that are no files, files without extension and files whose
    /// metadata could not be read are passed over; one such file never
    /// stops the others.
    pub fn prepare_commands_for_folder(
        &self,
        entries: &Vec<SourceEntry>,
        targets_per_date: &mut TargetMap,
        planned: &mut Destinations,
    ) -> (r: Vec<FileProcessCommands>)
        ensures
            (state_of(final(targets_per_date)@, final(planned)@), command_views(r@))
                == self.folder_commands(
                state_of(old(targets_per_date)@, old(planned)@),
                entries@,
            ),
    {
        let ghost start = state_of(targets_per_date@, planned@);
        let mut commands: Vec<FileProcessCommands> = Vec::new();
        let mut i: usize = 0;
        assert(command_views(commands@) =~= Seq::empty());
        while i < entries.len()
            invariant
                i <= entries.len(),
                (state_of(targets_per_date@, planned@), command_views(commands@))
                    == self.folder_commands(start, entries@.take(i as int)),
            decreases entries.len() - i,
        {
            let entry = &entries[i];
            proof {
                assert(entries@.take(i + 1).drop_last() == entries@.take(i as int));
                assert(entries@.take(i + 1).last() == entries@[i as int]);
            }
            if entry.is_file {
                match FileType::try_from_path(entry.path.as_str(), &self.raw_exts) {
                    Some(f_type) => match &entry.exif {
                        Some(Ok(data)) => {
                            let ghost before = command_views(commands@);
                            let ghost earlier = self.requests_of(entries@.take(i as int));
                            let ghost request = self.request_of(*entry).unwrap();
                            assert(earlier.push(request).drop_last() =~= earlier);
                            let c = self.commands_for(
                                targets_per_date,
                                planned,
                                entry.path.as_str(),
                                f_type,
                                data.date,
                                entry.destination_exists,
                            );
                            commands.push(c);
                            assert(command_views(commands@) =~= before.push(c@));
                        },
                        _ => {},
                    },
                    None => {},
                }
            }
            i += 1;
        }
        proof {
            assert(entries@.take(entries.len() as int) == entries@);
        }
        commands
    }

    /// Plans a whole run: the commands for every source folder, gathered
    /// into the directories to create, the files to move, and the source
    /// folders to remove at the end if they are empty by then.
    ///
    /// A folder that could not be listed gives no commands and does not
    /// stop the others.
    pub fn arrange_files(&self, targets: &mut TargetMap, listings: &Vec<SourceListing>) -> (r:
        Plan)
        ensures
            final(targets)@ == self.run_commands(old(targets)@, listings@).0.targets,
            forall|i: int, j: int|
                0 <= i < j < r.move_commands.len() ==> r.move_commands[i].to@
                    != r.move_commands[j].to@,
            mkdir_texts(r.mkdir_commands@) == mkdirs_of(
                self.run_commands(old(targets)@, listings@).1,
            ),
            move_views(r.move_commands@) == moves_of(
                self.run_commands(old(targets)@, listings@).1,
            ),
            cleanup_texts(r.cleanup_commands@) == folders_of(listings@),
    {
        let ghost start = start_of(targets@);
        let ghost first = targets@;
        let mut planned = Destinations::new();
        let mut mkdir_commands: Vec<MkDir> = Vec::new();
        let mut move_commands: Vec<MoveFile> = Vec::new();
        let mut cleanup_commands: Vec<RmEmptyDir> = Vec::new();
        let mut i: usize = 0;
        assert(mkdir_texts(mkdir_commands@) =~= Seq::empty());
        assert(move_views(move_commands@) =~= Seq::empty());
        assert(cleanup_texts(cleanup_commands@) =~= folders_of(listings@.take(0)));
        while i < listings.len()
            invariant
                i <= listings.len(),
                start == start_of(first),
                state_of(targets@, planned@) == self.run_commands(
                    first,
                    listings@.take(i as int),
                ).0,
                mkdir_texts(mkdir_commands@) == mkdirs_of(
                    self.run_commands(first, listings@.take(i as int)).1,
                ),
                move_views(move_commands@) == moves_of(
                    self.run_commands(first, listings@.take(i as int)).1,
                ),
                cleanup_texts(cleanup_commands@) == folders_of(listings@.take(i as int)),
            decreases listings.len() - i,
        {
            let listing = &listings[i];
            let ghost earlier = self.all_requests(listings@.take(i as int));
            let ghost done = self.commands_of(start, earlier).1;
            proof {
                assert(listings@.take(i + 1).drop_last() == listings@.take(i as int));
                assert(listings@.take(i + 1).last() == listings@[i as int]);
            }
            match &listing.entries {
                Ok(entries) => {
                    proof {
                        self.lemma_commands_of_concat(start, earlier, self.requests_of(entries@));
                    }
                    let source_commands = self.prepare_commands_for_folder(
                        entries,
                        targets,
                        &mut planned,
                    );
                    let ghost more = command_views(source_commands@);
                    let mut j: usize = 0;
                    assert(more.take(0) =~= Seq::empty());
                    assert(done + more.take(0) =~= done);
                    while j < source_commands.len()
                        invariant
                            j <= source_commands.len(),
                            more == command_views(source_commands@),
                            mkdir_texts(mkdir_commands@) == mkdirs_of(done + more.take(j as int)),
                            move_views(move_commands@) == moves_of(done + more.take(j as int)),
                        decreases source_commands.len() - j,
                    {
                        let sc = &source_commands[j];
                        proof {
                            let next = done + more.take(j + 1);
                            assert(next.drop_last() =~= done + more.take(j as int));
                            assert(next.last() == sc@);
                        }
                        let ghost mk_before = mkdir_texts(mkdir_commands@);
                        let ghost mv_before = move_views(move_commands@);
                        match &sc.possible_mk_dir {
                            Some(d) => {
                                mkdir_commands.push(MkDir { target: d.target.clone() });
                                assert(mkdir_texts(mkdir_commands@) =~= mk_before.push(d.target@));
                            },
                            None => {},
                        }
                        match &sc.move_file {
                            Some(m) => {
                                move_commands.push(
                                    MoveFile { from: m.from.clone(), to: m.to.clone() },
                                );
                                assert(move_views(move_commands@) =~= mv_before.push(
                                    (m.from@, m.to@),
                                ));
                            },
                            None => {},
                        }
                        j += 1;
                    }
                    assert(more.take(source_commands.len() as int) =~= more);
                },
                Err(_) => {},
            }
            let ghost cl_before = cleanup_texts(cleanup_commands@);
            cleanup_commands.push(RmEmptyDir { target: listing.folder.clone() });
            assert(cleanup_texts(cleanup_commands@) =~= cl_before.push(listing.folder@));
            i += 1;
        }
        proof {
            assert(listings@.take(listings.len() as int) == listings@);
            self.law_run_destinations_are_distinct(first, listings@);
            let moves = moves_of(self.run_commands(first, listings@).1);
            assert forall|i: int, j: int| 0 <= i < j < move_commands.len() implies move_commands[i].to@
                != move_commands[j].to@ by {
                assert(move_views(move_commands@)[i] == moves[i]);
                assert(move_views(move_commands@)[j] == moves[j]);
            }
        }
        Plan { mkdir_commands, move_commands, cleanup_commands }
    }

    /// The operations of the phase that follows `done`, in the mode of
    /// this configuration.
    pub open spec fn phase_effects(&self, plan: Plan, done: Phase, failed: Seq<String>) -> Seq<
        OperationView,
    > {
        match done {
            Phase::Planned => Seq::new(
                plan.mkdir_commands@.len(),
                |i: int| plan.mkdir_commands@[i].effect(self.dry_run),
            ),
            Phase::DirectoriesMade => move_effects(
                kept_moves(move_views(plan.move_commands@), failed),
                self.dry_run,
            ),
            Phase::FilesMoved => Seq::new(
                plan.cleanup_commands@.len(),
                |i: int| plan.cleanup_commands@[i].effect(self.dry_run),
            ),
            Phase::Cleaned => Seq::empty(),
        }
    }

    /// Hands out the operations of a plan phase by phase. Given the phase
    /// that the caller has completed, it names the next phase and its
    /// operations: first the directories, then the moves, then the removal
    /// of emptied source folders, then nothing. The moves are handed out
    /// only once the directories are reported done, together with those
    /// that could not be created; so every directory has been attempted
    /// before the first move, and every move before the first removal.
    pub fn next_phase(&self, plan: &Plan, done: Phase, failed: &Vec<String>) -> (r: Option<
        (Phase, Vec<FileOperation>),
    >)
        ensures
            r is Some == (done != Phase::Cleaned),
            r matches Some(next) ==> {
                &&& next.0 == done.following()
                &&& operation_views(next.1@) == self.phase_effects(*plan, done, failed@)
                &&& self.dry_run ==> forall|i: int|
                    0 <= i < next.1.len() ==> !(#[trigger] next.1[i])@.changes_files()
            },
    {
        match done {
            Phase::Planned => {
                let ops = self.directory_phase(plan);
                assert(operation_views(ops@) =~= self.phase_effects(*plan, done, failed@));
                Some((Phase::DirectoriesMade, ops))
            },
            Phase::DirectoriesMade => {
                let ops = self.move_phase(plan, failed);
                Some((Phase::FilesMoved, ops))
            },
            Phase::FilesMoved => {
                let ops = self.cleanup_phase(plan);
                assert(operation_views(ops@) =~= self.phase_effects(*plan, done, failed@));
                Some((Phase::Cleaned, ops))
            },
            Phase::Cleaned => None,
        }
    }

    /// First phase: one operation for each directory
    /// to create, in order. They come before any move.
    fn directory_phase(&self, plan: &Plan) -> (r: Vec<FileOperation>)
        ensures
            r.len() == plan.mkdir_commands.len(),
            forall|i: int|
                0 <= i < r.len() ==> (#[trigger] r[i])@ == plan.mkdir_commands[i].effect(
                    self.dry_run,
                ),
            self.dry_run ==> forall|i: int| 0 <= i < r.len() ==> !(#[trigger] r[i])@.changes_files(),
    {
        let mut ops: Vec<FileOperation> = Vec::new();
        let mut i: usize = 0;
        while i < plan.mkdir_commands.len()
            invariant
                i <= plan.mkdir_commands.len(),
                ops.len() == i,
                forall|k: int|
                    0 <= k < i ==> (#[trigger] ops[k])@ == plan.mkdir_commands[k].effect(
                        self.dry_run,
                    ),
                self.dry_run ==> forall|k: int| 0 <= k < i ==> !(#[trigger] ops[k])@.changes_files(),
            decreases plan.mkdir_commands.len() - i,
        {
            let op = plan.mkdir_commands[i].exec(self.dry_run);
            ops.push(op);
            i += 1;
        }
        ops
    }

    /// Second phase: one operation for each move whose directory is there.
    /// `failed` holds the directories that could not be created; every move
    /// into one of them is left out, the others are kept in order. The
    /// moves are independent of one another.
    fn move_phase(&self, plan: &Plan, failed: &Vec<String>) -> (r: Vec<FileOperation>)
        ensures
            operation_views(r@) == move_effects(
                kept_moves(move_views(plan.move_commands@), failed@),
                self.dry_run,
            ),
            self.dry_run ==> forall|i: int| 0 <= i < r.len() ==> !(#[trigger] r[i])@.changes_files(),
    {
        let mut ops: Vec<FileOperation> = Vec::new();
        let mut i: usize = 0;
        let ghost moves = move_views(plan.move_commands@);
        assert(operation_views(ops@) =~= Seq::empty());
        while i < plan.move_commands.len()
            invariant
                i <= plan.move_commands.len(),
                moves == move_views(plan.move_commands@),
                operation_views(ops@) == move_effects(
                    kept_moves(moves.take(i as int), failed@),
                    self.dry_run,
                ),
                self.dry_run ==> forall|k: int|
                    0 <= k < ops.len() ==> !(#[trigger] ops[k])@.changes_files(),
            decreases plan.move_commands.len() - i,
        {
            let m = &plan.move_commands[i];
            proof {
                assert(moves.take(i + 1).drop_last() == moves.take(i as int));
                assert(moves.take(i + 1).last() == (m.from@, m.to@));
            }
            if !is_blocked_by(m.to.as_str(), failed) {
                let ghost before = operation_views(ops@);
                let ghost kept = kept_moves(moves.take(i as int), failed@);
                let op = m.exec(self.dry_run);
                ops.push(op);
                assert(operation_views(ops@) =~= before.push(op@));
                assert(move_effects(kept.push((m.from@, m.to@)), self.dry_run) =~= move_effects(
                    kept,
                    self.dry_run,
                ).push(op@));
            }
            i += 1;
        }
        proof {
            assert(moves.take(plan.move_commands.len() as int) == moves);
        }
        ops
    }

    /// Last phase: one operation for each source folder, to remove it if
    /// it is empty. A folder that is not empty stays; that is no failure
    /// of the run.
    fn cleanup_phase(&self, plan: &Plan) -> (r: Vec<FileOperation>)
        ensures
            r.len() == plan.cleanup_commands.len(),
            forall|i: int|
                0 <= i < r.len() ==> (#[trigger] r[i])@ == plan.cleanup_commands[i].effect(
                    self.dry_run,
                ),
            self.dry_run ==> forall|i: int| 0 <= i < r.len() ==> !(#[trigger] r[i])@.changes_files(),
    {
        let mut ops: Vec<FileOperation> = Vec::new();
        let mut i: usize = 0;
        while i < plan.cleanup_commands.len()
            invariant
                i <= plan.cleanup_commands.len(),
                ops.len() == i,
                forall|k: int|
                    0 <= k < i ==> (#[trigger] ops[k])@ == plan.cleanup_commands[k].effect(
                        self.dry_run,
                    ),
                self.dry_run ==> forall|k: int| 0 <= k < i ==> !(#[trigger] ops[k])@.changes_files(),
            decreases plan.cleanup_commands.len() - i,
        {
            let op = plan.cleanup_commands[i].exec(self.dry_run);
            ops.push(op);
            i += 1;
        }
        ops
    }
}

/// What one file asks of a run: its path, kind and capture date, and
/// whether its destination is taken.
pub struct Request {
    pub path: Seq<char>,
    pub f_type: FileType,
    pub date: CalendarDate,
    pub destination_exists: bool,
}

/// One entry of a source folder, as the caller found it.
pub struct SourceEntry {
    /// The path of the entry, source folder in front.
    pub path: String,
    /// Whether the entry is a regular file.
    pub is_file: bool,
    /// The capture metadata of the file, or why it could not be read;
    /// `None` where the metadata was not read at all.
    pub exif: Option<Result<ExifData, ArrangeError>>,
    /// Whether something already stands at the file's destination.
    pub destination_exists: bool,
}

/// A source folder with its entries, or the reason why it could not be
/// listed.
pub struct SourceListing {
    pub folder: String,
    pub entries: Result<Vec<SourceEntry>, ArrangeError>,
}

/// How far the carrying out of a plan has come.
#[derive(Debug, Clone, Copy, PartialEq, Eq, Structural)]
pub enum Phase {
    /// Nothing has been carried out.
    Planned,
    /// Every directory has been attempted.
    DirectoriesMade,
    /// Every move has been attempted.
    FilesMoved,
    /// Every emptied source folder has been attempted.
    Cleaned,
}

impl Phase {
    /// The phase that comes next; the last phase is followed by itself.
    pub open spec fn following(self) -> Phase {
        match self {
            Phase::Planned => Phase::DirectoriesMade,
            Phase::DirectoriesMade => Phase::FilesMoved,
            Phase::FilesMoved => Phase::Cleaned,
            Phase::Cleaned => Phase::Cleaned,
        }
    }
}

/// The commands of a run, by phase.
pub struct Plan {
    pub mkdir_commands: Vec<MkDir>,
    pub move_commands: Vec<MoveFile>,
    pub cleanup_commands: Vec<RmEmptyDir>,
}

pub open spec fn command_views(v: Seq<FileProcessCommands>) -> Seq<CommandsView> {
    Seq::new(v.len(), |i: int| v[i]@)
}

pub open spec fn mkdir_texts(v: Seq<MkDir>) -> Seq<Seq<char>> {
    Seq::new(v.len(), |i: int| v[i].target@)
}

pub open spec fn move_views(v: Seq<MoveFile>) -> Seq<(Seq<char>, Seq<char>)> {
    Seq::new(v.len(), |i: int| (v[i].from@, v[i].to@))
}

pub open spec fn cleanup_texts(v: Seq<RmEmptyDir>) -> Seq<Seq<char>> {
    Seq::new(v.len(), |i: int| v[i].target@)
}

pub open spec fn operation_views(v: Seq<FileOperation>) -> Seq<OperationView> {
    Seq::new(v.len(), |i: int| v[i]@)
}

/// The directories to create, in the order of the commands.
pub open spec fn mkdirs_of(commands: Seq<CommandsView>) -> Seq<Seq<char>>
    decreases commands.len(),
{
    if commands.len() == 0 {
        Seq::empty()
    } else {
        let rest = mkdirs_of(commands.drop_last());
        match commands.last().mk_dir {
            Some(d) => rest.push(d),
            None => rest,
        }
    }
}

/// The moves, in the order of the commands.
pub open spec fn moves_of(commands: Seq<CommandsView>) -> Seq<(Seq<char>, Seq<char>)>
    decreases commands.len(),
{
    if commands.len() == 0 {
        Seq::empty()
    } else {
        let rest = moves_of(commands.drop_last());
        match commands.last().move_file {
            Some(m) => rest.push(m),
            None => rest,
        }
    }
}

/// The folders of the listings, in order.
pub open spec fn folders_of(listings: Seq<SourceListing>) -> Seq<Seq<char>> {
    Seq::new(listings.len(), |i: int| listings[i].folder@)
}

/// A destination lies directly in a directory: it is the directory joined
/// with the destination's file name.
pub open spec fn is_inside(to: Seq<char>, dir: Seq<char>) -> bool {
    match file_name_of(to) {
        Some(name) => joined(dir, name) == to,
        None => false,
    }
}

/// A destination lies directly in one of the failed directories.
pub open spec fn is_blocked(to: Seq<char>, failed: Seq<String>) -> bool {
    exists|i: int| 0 <= i < failed.len() && is_inside(to, #[trigger] failed[i]@)
}

/// The moves that do not go into a failed directory, in order.
pub open spec fn kept_moves(moves: Seq<(Seq<char>, Seq<char>)>, failed: Seq<String>) -> Seq<
    (Seq<char>, Seq<char>),
>
    decreases moves.len(),
{
    if moves.len() == 0 {
        Seq::empty()
    } else {
        let rest = kept_moves(moves.drop_last(), failed);
        if is_blocked(moves.last().1, failed) {
            rest
        } else {
            rest.push(moves.last())
        }
    }
}

/// The operations that moves stand for.
pub open spec fn move_effects(moves: Seq<(Seq<char>, Seq<char>)>, dry_run: bool) -> Seq<
    OperationView,
> {
    Seq::new(
        moves.len(),
        |i: int|
            if dry_run {
                OperationView::Report { line: move_line(moves[i].0, moves[i].1) }
            } else {
                OperationView::Rename { from: moves[i].0, to: moves[i].1 }
            },
    )
}

/// Whether a destination lies directly in one of the failed directories.
pub fn is_blocked_by(to: &str, failed: &Vec<String>) -> (r: bool)
    ensures
        r == is_blocked(to@, failed@),
{
    let name = match file_name(to) {
        Some(name) => name,
        None => {
            return false;
        },
    };
    let mut i: usize = 0;
    while i < failed.len()
        invariant
            i <= failed.len(),
            file_name_of(to@) == Some(name@),
            forall|k: int| 0 <= k < i ==> !is_inside(to@, #[trigger] failed@[k]@),
        decreases failed.len() - i,
    {
        let candidate = join(failed[i].as_str(), name);
        if eq_text(candidate.as_str(), to) {
            return true;
        }
        i += 1;
    }
    false
}

} // verus!
