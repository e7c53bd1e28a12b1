//! The run of a script.
//!
//! A script is run in steps. The run itself reads no file and asks no
//! database: after each step it says what is to be done next, and it is
//! told what came of it. So one run can be driven by any catalog and any
//! file system, and what it decides is the same for all of them.

use crate::database::models::{CatalogError, CatalogErrorView};
use crate::commands::script_parser::{well_formed, Data, DataView, File, Group};
use crate::commands::{parse_script, parsed_script};
use crate::lookup::{
    all_known, identities, identities_of, known, known_tags, lemma_none_unknown, unknown_among,
    unknown_names,
};
use crate::text::{
    concat3, copy_of_texts, join, joined, push_signed_decimal, same_text, signed_decimal,
};
use vstd::prelude::*;
use vstd::string::*;

verus! {

/// Whether `ext` can be the extension of the path `file`: it holds no
/// `.`, and where it is not empty, `file` holds it right after a `.`.
pub open spec fn is_extension_of(ext: Seq<char>, file: Seq<char>) -> bool {
    &&& !ext.contains('.')
    &&& ext.len() > 0 ==> exists|i: int|
        0 < i && i + ext.len() <= file.len() && file[i - 1] == '.' && #[trigger] file.subrange(
            i,
            i + ext.len(),
        ) == ext
}

/// Whether the path `file` is a bare file name, whatever the platform: it
/// holds no `/`, no `\` and no `:`, so that nothing parts it into
/// components and nothing is a prefix of it, and it is not `..`.
pub open spec fn is_bare_name(file: Seq<char>) -> bool {
    &&& !file.contains('/')
    &&& !file.contains('\\')
    &&& !file.contains(':')
    &&& file != seq!['.', '.']
}

/// Whether `d` is the position of the last dot of `name`.
pub open spec fn is_last_dot(name: Seq<char>, d: int) -> bool {
    &&& 0 <= d < name.len()
    &&& name[d] == '.'
    &&& forall|j: int| d < j < name.len() ==> name[j] != '.'
}

/// Whether `ext` is the extension of the file name `name`: none, where the
/// name holds no dot, or no dot but its first character; else what stands
/// after the last dot of the name.
pub open spec fn is_extension_of_name(ext: Option<Seq<char>>, name: Seq<char>) -> bool {
    &&& !name.contains('.') ==> ext is None
    &&& forall|d: int| #[trigger]
        is_last_dot(name, d) ==> ext == if d == 0 {
            None::<Seq<char>>
        } else {
            Some(name.subrange(d + 1, name.len() as int))
        }
}

/// Whether the path `file` begins with no prefix, whatever the platform:
/// it holds no `\` and no `:`, and does not begin with two `/`.
pub open spec fn is_without_prefix(file: Seq<char>) -> bool {
    &&& !file.contains('\\')
    &&& !file.contains(':')
    &&& !(file.len() >= 2 && file[0] == '/' && file[1] == '/')
}

/// Whether the path `file` ends in the name `..`: in two dots with nothing,
/// or a `/`, before them.
pub open spec fn ends_in_parent(file: Seq<char>) -> bool {
    &&& file.len() >= 2
    &&& file[file.len() - 1] == '.'
    &&& file[file.len() - 2] == '.'
    &&& file.len() > 2 ==> file[file.len() - 3] == '/'
}

/// Whether the last dot of the path `file` stands at `d`, inside its last
/// name and not at the head of it: after the last `/` of the path, with a
/// character of the name before it. What follows such a dot is the
/// extension of a path without prefix that does not end in `..`, whether
/// the platform parts a path at `/` or takes it for one name.
pub open spec fn is_extension_dot(file: Seq<char>, d: int) -> bool {
    &&& is_without_prefix(file)
    &&& !ends_in_parent(file)
    &&& is_last_dot(file, d)
    &&& d > 0
    &&& forall|j: int| d - 1 <= j < file.len() ==> file[j] != '/'
}

/// The text of an extension: the empty text, where there is none.
pub open spec fn extension_text(ext: Option<Seq<char>>) -> Seq<char> {
    match ext {
        Some(e) => e,
        None => Seq::empty(),
    }
}

/// Whether `found` is what is known of the extension of the path `file`
/// wherever it is read.
///
/// It is what `is_extension_of` says, and nothing of a path without a dot.
/// Where the path is a bare file name, it is the extension of that name.
/// Where the path has no prefix and its last dot stands inside its last
/// name, as `is_extension_dot` has it, it is what follows that dot: so of
/// `sub/a.png` it is `png`. Of the other paths the platform decides: of a
/// path with `\` or `:` or two `/` at its head, how far the prefix goes and
/// what parts the components; of `a.b/c`, whether `c` is the name, without
/// extension, or the whole, with the extension `b/c`.
pub open spec fn is_extension_found(found: Option<Seq<char>>, file: Seq<char>) -> bool {
    &&& found matches Some(e) ==> is_extension_of(e, file)
    &&& !file.contains('.') ==> found is None
    &&& is_bare_name(file) ==> is_extension_of_name(found, file)
    &&& forall|d: int| #[trigger]
        is_extension_dot(file, d) ==> found == Some(file.subrange(d + 1, file.len() as int))
}

/// Whether `ext` is, as a text, the extension of the path `file`: the text
/// of something that `is_extension_found` holds of the path, the empty
/// text where that is no extension.
pub open spec fn names_extension(ext: Seq<char>, file: Seq<char>) -> bool {
    exists|found: Option<Seq<char>>| #[trigger]
        is_extension_found(found, file) && ext == extension_text(found)
}

/// `std::path::Path::extension`: the extension of the file name of `file`,
/// without its dot; `None` where the path has no file name, or the name has
/// no dot but a first one. As the documentation has it, the extension is
/// the part of the file name after its last dot: so it holds no dot and
/// stands in `file` after a dot, and a path without a dot has none. It may
/// hold a `/`: under a verbatim prefix of Windows, and on a platform whose
/// only separator is `\`, a `/` is a character of a name.
///
/// The file name is the last component of the path. The documentation of
/// `Path::components` parts a path at its separators only, which are `/`
/// or `\` or both; that of `Prefix` knows prefixes on Windows only, each
/// with a `:` or beginning with two separators, `\` or in some forms `/`;
/// and that of `file_name` gives no name to a path that ends in `..`.
///
/// So a path that holds none of `/`, `\` and `:` and is not `..` is its own
/// file name wherever it is read; or, where it is empty or `.`, it has no
/// file name and, by the rule, no extension.
///
/// And a path that holds no `\` and no `:` and does not begin with two `/`
/// has no prefix, and is parted at `/` or not at all. Let its last dot
/// stand after its last `/`, with a character other than `/` before the
/// dot, and let the part after the last `/` not be `..`. Where `/` parts
/// the path, that part is the file name: it is not empty, not `.` and not
/// `..`, it holds the dot, and not at its head. Where nothing parts the
/// path, the whole is the file name, and the dot is its last and not its
/// first character. Either way the extension is what follows the dot.
#[verifier::external_body]
fn path_extension(file: &str) -> (ext: Option<String>)
    ensures
        is_extension_found(
            match ext {
                Some(e) => Some(e@),
                None => None,
            },
            file@,
        ),
{
    std::path::Path::new(file).extension().and_then(|e| e.to_str()).map(String::from)
}

/// The extension of the path `file`, or the empty text where it has none:
/// see `names_extension`.
pub fn extension(file: &str) -> (ext: String)
    ensures
        names_extension(ext@, file@),
{
    match path_extension(file) {
        Some(ext) => {
            proof {
                assert(is_extension_found(Some(ext@), file@));
            }
            ext
        },
        None => {
            proof {
                assert(is_extension_found(None::<Seq<char>>, file@));
            }
            String::new()
        },
    }
}

/// A file that a script declares, as the run handles it.
#[derive(Debug, Clone)]
pub struct PlannedFile {
    pub file: String,
    pub extension: String,
    pub tags: Vec<String>,
}

/// A planned file, as contracts see it.
pub struct PlannedFileView {
    pub file: Seq<char>,
    pub extension: Seq<char>,
    pub tags: Seq<Seq<char>>,
}

impl View for PlannedFile {
    type V = PlannedFileView;

    open spec fn view(&self) -> PlannedFileView {
        PlannedFileView {
            file: self.file@,
            extension: self.extension@,
            tags: self.tags.deep_view(),
        }
    }
}

impl DeepView for PlannedFile {
    type V = PlannedFileView;

    open spec fn deep_view(&self) -> PlannedFileView {
        self@
    }
}

/// A group that a script declares, as the run handles it.
#[derive(Debug, Clone)]
pub struct PlannedSet {
    pub members: Vec<usize>,
    pub tags: Vec<String>,
}

/// A planned group, as contracts see it.
pub struct PlannedSetView {
    pub members: Seq<int>,
    pub tags: Seq<Seq<char>>,
}

impl View for PlannedSet {
    type V = PlannedSetView;

    open spec fn view(&self) -> PlannedSetView {
        PlannedSetView {
            members: crate::commands::script_parser::positions(self.members@),
            tags: self.tags.deep_view(),
        }
    }
}

impl DeepView for PlannedSet {
    type V = PlannedSetView;

    open spec fn deep_view(&self) -> PlannedSetView {
        self@
    }
}

/// What a script asks for, laid out for the run: every set of tags as a
/// list, and every file with its extension.
#[derive(Debug, Clone)]
pub struct Plan {
    /// Every tag that the script refers to, once.
    pub tags: Vec<String>,
    pub files: Vec<PlannedFile>,
    pub sets: Vec<PlannedSet>,
}

/// A plan, as contracts see it.
#[verifier::ext_equal]
pub struct PlanView {
    pub tags: Seq<Seq<char>>,
    pub files: Seq<PlannedFileView>,
    pub sets: Seq<PlannedSetView>,
}

impl View for Plan {
    type V = PlanView;

    open spec fn view(&self) -> PlanView {
        PlanView {
            tags: self.tags.deep_view(),
            files: self.files.deep_view(),
            sets: self.sets.deep_view(),
        }
    }
}

/// Whether `list` lists the members of `set`, each once.
pub open spec fn lists(list: Seq<Seq<char>>, set: Set<Seq<char>>) -> bool {
    list.no_duplicates() && list.to_set() == set
}

/// Whether `plan` is the plan of the document `data`: it has the files and
/// the groups of the document in their order, each with its tags, and each
/// file with an extension of its path.
pub open spec fn plan_of(plan: PlanView, data: DataView) -> bool {
    &&& lists(plan.tags, data.tags)
    &&& plan.files.len() == data.files.len()
    &&& forall|i: int|
        0 <= i < plan.files.len() ==> {
            &&& (#[trigger] plan.files[i]).file == data.files[i].file
            &&& lists(plan.files[i].tags, data.files[i].tags)
            &&& names_extension(plan.files[i].extension, plan.files[i].file)
        }
    &&& plan.sets.len() == data.sets.len()
    &&& forall|g: int|
        0 <= g < plan.sets.len() ==> {
            &&& (#[trigger] plan.sets[g]).members == data.sets[g].files
            &&& lists(plan.sets[g].tags, data.sets[g].tags)
        }
}

/// Whether a plan refers to nothing outside itself: it lists no tag twice,
/// every tag of a file or a group is among its tags, and every member of a
/// group is the position of one of its files.
pub open spec fn closed(plan: PlanView) -> bool {
    &&& plan.tags.no_duplicates()
    &&& forall|i: int, t: int|
        0 <= i < plan.files.len() && 0 <= t < plan.files[i].tags.len() ==> plan.tags.contains(
            #[trigger] plan.files[i].tags[t],
        )
    &&& forall|g: int, t: int|
        0 <= g < plan.sets.len() && 0 <= t < plan.sets[g].tags.len() ==> plan.tags.contains(
            #[trigger] plan.sets[g].tags[t],
        )
    &&& forall|g: int, m: int|
        0 <= g < plan.sets.len() && 0 <= m < plan.sets[g].members.len() ==> 0 <= (
        #[trigger] plan.sets[g].members[m]) < plan.files.len()
}

/// The plan of a well-formed document refers to nothing outside itself.
pub proof fn lemma_plan_of_well_formed_is_closed(plan: PlanView, data: DataView)
    requires
        plan_of(plan, data),
        well_formed(data),
    ensures
        closed(plan),
{
    assert forall|i: int, t: int|
        0 <= i < plan.files.len() && 0 <= t < plan.files[i].tags.len() implies plan.tags.contains(
        #[trigger] plan.files[i].tags[t],
    ) by {
        let tag = plan.files[i].tags[t];
        assert(plan.files[i].tags.contains(tag));
        assert(data.files[i].tags.contains(tag));
        assert(data.files[i].tags.subset_of(data.tags));
        assert(plan.tags.to_set().contains(tag));
    }
    assert forall|g: int, t: int|
        0 <= g < plan.sets.len() && 0 <= t < plan.sets[g].tags.len() implies plan.tags.contains(
        #[trigger] plan.sets[g].tags[t],
    ) by {
        let tag = plan.sets[g].tags[t];
        assert(plan.sets[g].tags.contains(tag));
        assert(data.sets[g].tags.contains(tag));
        assert(data.sets[g].tags.subset_of(data.tags));
        assert(plan.tags.to_set().contains(tag));
    }
    assert forall|g: int, m: int|
        0 <= g < plan.sets.len() && 0 <= m < plan.sets[g].members.len() implies 0 <= (
    #[trigger] plan.sets[g].members[m]) < plan.files.len() by {
        assert(plan.sets[g].members[m] == data.sets[g].files[m]);
    }
}

/// A copy of the positions `list`.
fn copy_of_positions(list: &Vec<usize>) -> (copy: Vec<usize>)
    ensures
        copy@ == list@,
{
    let n: usize = list.len();
    let mut copy: Vec<usize> = Vec::new();
    let mut i: usize = 0;
    while i < n
        invariant
            n == list@.len(),
            i <= n,
            copy@ == list@.take(i as int),
        decreases n - i,
    {
        copy.push(list[i]);
        proof {
            assert(copy@ =~= list@.take(i + 1));
        }
        i = i + 1;
    }
    proof {
        assert(list@.take(n as int) =~= list@);
    }
    copy
}

impl Plan {
    /// Lays out the document `data` for a run.
    pub fn of(data: &Data) -> (plan: Plan)
        ensures
            plan_of(plan@, data@),
    {
        let tags: Vec<String> = data.tags.to_vec();
        let mut files: Vec<PlannedFile> = Vec::new();
        let n: usize = data.files.len();
        let mut i: usize = 0;
        while i < n
            invariant
                n == data.files@.len(),
                i <= n,
                files@.len() == i,
                forall|k: int|
                    0 <= k < i ==> {
                        &&& (#[trigger] files@[k])@.file == data.files@[k]@.file
                        &&& lists(files@[k]@.tags, data.files@[k]@.tags)
                        &&& names_extension(files@[k]@.extension, files@[k]@.file)
                    },
            decreases n - i,
        {
            let file: &File = &data.files[i];
            let planned = PlannedFile {
                file: file.file.clone(),
                extension: extension(file.file.as_str()),
                tags: file.tags.to_vec(),
            };
            files.push(planned);
            i = i + 1;
        }
        let mut sets: Vec<PlannedSet> = Vec::new();
        let m: usize = data.sets.len();
        let mut g: usize = 0;
        while g < m
            invariant
                m == data.sets@.len(),
                g <= m,
                sets@.len() == g,
                forall|k: int|
                    0 <= k < g ==> {
                        &&& (#[trigger] sets@[k])@.members == data.sets@[k]@.files
                        &&& lists(sets@[k]@.tags, data.sets@[k]@.tags)
                    },
            decreases m - g,
        {
            let group: &Group = &data.sets[g];
            let planned = PlannedSet {
                members: copy_of_positions(&group.files),
                tags: group.tags.to_vec(),
            };
            sets.push(planned);
            g = g + 1;
        }
        let plan = Plan { tags, files, sets };
        proof {
            assert forall|k: int| 0 <= k < plan@.files.len() implies {
                &&& (#[trigger] plan@.files[k]).file == data@.files[k].file
                &&& lists(plan@.files[k].tags, data@.files[k].tags)
                &&& names_extension(plan@.files[k].extension, plan@.files[k].file)
            } by {
                assert(plan@.files[k] == files@[k]@);
                assert(data@.files[k] == data.files@[k]@);
            }
            assert forall|k: int| 0 <= k < plan@.sets.len() implies {
                &&& (#[trigger] plan@.sets[k]).members == data@.sets[k].files
                &&& lists(plan@.sets[k].tags, data@.sets[k].tags)
            } by {
                assert(plan@.sets[k] == sets@[k]@);
                assert(data@.sets[k] == data.sets@[k]@);
            }
        }
        plan
    }
}

/// Where a run stands: what it waits for.
#[derive(Debug, Clone, Copy, PartialEq, Eq, Structural)]
pub enum Phase {
    /// The run waits to hear which tags the catalog knows and which files
    /// can be read.
    Validating,
    /// The run waits for the identity of the file at the given position.
    NewFile(usize),
    /// The run waits for the tags of that file to be attached.
    TagFile(usize),
    /// The run waits for the bytes of that file to be copied.
    CopyFile(usize),
    /// The run waits for the identity of the set at the given position.
    NewSet(usize),
    /// The run waits for the tags of that set to be attached.
    TagSet(usize),
    /// The run is over.
    Done,
}

/// What a run asks to be done next.
#[derive(Debug)]
pub enum Action {
    /// Look each tag up in the catalog, and see whether each file can be
    /// read. Changes nothing.
    Validate { tags: Vec<String>, files: Vec<String> },
    /// Make an entry for a file with this extension.
    NewFile { extension: String },
    /// Attach the tags to the entry.
    TagEntry { entry: i64, tags: Vec<i64> },
    /// Copy the bytes of the file `file` of the script into the store of
    /// the catalog, under the name `name`.
    CopyFile { file: String, name: String },
    /// Make a set of the files `members`, with `cover` to stand for it.
    NewSet { cover: i64, members: Vec<i64> },
    /// Nothing more: the run is over. It succeeded, with a line for each
    /// file whose bytes could not be copied; or it failed, with the lines
    /// that say why.
    Finish(Result<Vec<String>, Vec<String>>),
}

/// An action, as contracts see it.
pub enum ActionView {
    Validate { tags: Seq<Seq<char>>, files: Seq<Seq<char>> },
    NewFile { extension: Seq<char> },
    TagEntry { entry: i64, tags: Seq<i64> },
    CopyFile { file: Seq<char>, name: Seq<char> },
    NewSet { cover: i64, members: Seq<i64> },
    Finish(Result<Seq<Seq<char>>, Seq<Seq<char>>>),
}

impl View for Action {
    type V = ActionView;

    open spec fn view(&self) -> ActionView {
        match self {
            Action::Validate { tags, files } => ActionView::Validate {
                tags: tags.deep_view(),
                files: files.deep_view(),
            },
            Action::NewFile { extension } => ActionView::NewFile { extension: extension@ },
            Action::TagEntry { entry, tags } => ActionView::TagEntry { entry: *entry, tags: tags@ },
            Action::CopyFile { file, name } => ActionView::CopyFile { file: file@, name: name@ },
            Action::NewSet { cover, members } => ActionView::NewSet {
                cover: *cover,
                members: members@,
            },
            Action::Finish(Ok(lines)) => ActionView::Finish(Ok(lines.deep_view())),
            Action::Finish(Err(lines)) => ActionView::Finish(Err(lines.deep_view())),
        }
    }
}

/// What came of the action that a run asked for.
#[derive(Debug)]
pub enum Event {
    /// For each tag of the action, in its order, its identity in the
    /// catalog, if it has one; for each file, whether it can be read.
    Validated { tags: Vec<Option<i64>>, readable: Vec<bool> },
    /// The identity of the new entry.
    FileCreated(i64),
    /// The tags are attached.
    Tagged,
    /// The bytes are copied; or they are not, and why.
    Copied(Option<String>),
    /// The identity of the new set; or why the catalog refused it.
    SetCreated(Result<i64, CatalogError>),
}

/// An event, as contracts see it.
pub enum EventView {
    Validated { tags: Seq<Option<i64>>, readable: Seq<bool> },
    FileCreated(i64),
    Tagged,
    Copied(Option<Seq<char>>),
    SetCreated(Result<i64, CatalogErrorView>),
}

impl View for Event {
    type V = EventView;

    open spec fn view(&self) -> EventView {
        match self {
            Event::Validated { tags, readable } => EventView::Validated {
                tags: tags@,
                readable: readable@,
            },
            Event::FileCreated(id) => EventView::FileCreated(*id),
            Event::Tagged => EventView::Tagged,
            Event::Copied(Some(why)) => EventView::Copied(Some(why@)),
            Event::Copied(None) => EventView::Copied(None),
            Event::SetCreated(Ok(id)) => EventView::SetCreated(Ok(*id)),
            Event::SetCreated(Err(e)) => EventView::SetCreated(Err(e@)),
        }
    }
}

/// A run, as contracts see it.
#[verifier::ext_equal]
pub struct RunView {
    pub plan: PlanView,
    pub phase: Phase,
    /// The identity of each tag of the plan, once validation has passed.
    pub tag_ids: Seq<i64>,
    /// The identities of the files that have one, in the order of the
    /// plan.
    pub file_ids: Seq<i64>,
    /// A line for each file whose bytes could not be copied.
    pub logs: Seq<Seq<char>>,
}

/// The paths of the files of `plan`, in their order.
pub open spec fn paths_of(plan: PlanView) -> Seq<Seq<char>> {
    plan.files.map_values(|f: PlannedFileView| f.file)
}

/// The lines that say why validation failed: the tags that the catalog
/// does not know, if there are any, and the files that cannot be read, if
/// there are any.
pub open spec fn validation_lines(
    unknown: Seq<Seq<char>>,
    unreadable: Seq<Seq<char>>,
) -> Seq<Seq<char>> {
    (if unknown.len() > 0 {
        seq!["Unknown tags:"@, "\t"@ + joined(unknown, ", "@)]
    } else {
        Seq::empty()
    }) + (if unreadable.len() > 0 {
        seq!["Could not read files:"@, "\t'"@ + joined(unreadable, ", "@) + "'"@]
    } else {
        Seq::empty()
    })
}

/// The identities of the tags `tags`, each of which is among `names`,
/// where `ids` holds the identity of each name.
pub open spec fn tag_ids_of(tags: Seq<Seq<char>>, names: Seq<Seq<char>>, ids: Seq<i64>) -> Seq<
    i64,
> {
    tags.map_values(|tag: Seq<char>| ids[names.index_of(tag)])
}

/// The name under which the bytes of the file with the identity `id` and
/// the extension `extension` are stored: the identity, a dot and the
/// extension.
pub open spec fn stored_name(id: i64, extension: Seq<char>) -> Seq<char> {
    signed_decimal(id as int) + "."@ + extension
}

/// The line that says that the bytes of `file` could not be copied, and
/// why.
pub open spec fn copy_error_line(file: Seq<char>, why: Seq<char>) -> Seq<char> {
    "Error copying '"@ + file + "': "@ + why
}

/// The line that says why the catalog refused a set.
pub open spec fn set_error_line(e: CatalogErrorView) -> Seq<char> {
    match e {
        CatalogErrorView::InvalidCover => "Invalid cover"@,
        CatalogErrorView::InvalidId => "Invalid file id"@,
        CatalogErrorView::NotFound => "Invalid file id"@,
        CatalogErrorView::BelongsToSet => "Invalid file id"@,
        other => "Unknown error "@ + other.description(),
    }
}

/// The identities of the files at the positions `members`.
pub open spec fn member_ids(members: Seq<int>, file_ids: Seq<i64>) -> Seq<i64> {
    members.map_values(|m: int| file_ids[m])
}

/// The end of a run.
pub open spec fn finished(run: RunView, result: Result<Seq<Seq<char>>, Seq<Seq<char>>>) -> (
    RunView,
    ActionView,
) {
    (RunView { phase: Phase::Done, ..run }, ActionView::Finish(result))
}

/// What a run does when it comes to the set at position `g`: it asks for
/// the set, with its first member as the cover; a set without members ends
/// the run in failure; after the last set the run ends in success, with its
/// lines.
pub open spec fn enter_sets(run: RunView, g: int) -> (RunView, ActionView) {
    if g < run.plan.sets.len() {
        let set = run.plan.sets[g];
        if set.members.len() == 0 {
            finished(run, Err(seq!["Cannot create empty set"@]))
        } else {
            (
                RunView { phase: Phase::NewSet(g as usize), ..run },
                ActionView::NewSet {
                    cover: run.file_ids[set.members[0]],
                    members: member_ids(set.members, run.file_ids),
                },
            )
        }
    } else {
        finished(run, Ok(run.logs))
    }
}

/// What a run does when it comes to the file at position `i`: it asks for
/// an entry for the file; after the last file it comes to the sets.
pub open spec fn enter_files(run: RunView, i: int) -> (RunView, ActionView) {
    if i < run.plan.files.len() {
        (
            RunView { phase: Phase::NewFile(i as usize), ..run },
            ActionView::NewFile { extension: run.plan.files[i].extension },
        )
    } else {
        enter_sets(run, 0)
    }
}

/// One step of a run: the run after `event`, and what it asks for next.
///
/// Validation fails, and ends the run, where a tag is unknown or a file
/// cannot be read. After it the files get, one after the other and in the
/// order of the script, an entry, their tags and their bytes; bytes that
/// could not be copied leave a line and stop nothing. Then the sets get
/// their entry and their tags; a set that the catalog refuses ends the run
/// in failure. An event that the run does not wait for ends it in failure
/// too.
pub open spec fn step_of(run: RunView, event: EventView) -> (RunView, ActionView) {
    match (run.phase, event) {
        (Phase::Validating, EventView::Validated { tags, readable }) => {
            let unknown = unknown_among(run.plan.tags, known_tags(tags));
            let unreadable = unknown_among(paths_of(run.plan), readable);
            if unknown.len() == 0 && unreadable.len() == 0 {
                enter_files(
                    RunView { tag_ids: identities(tags, run.plan.tags.len() as int), ..run },
                    0,
                )
            } else {
                finished(run, Err(validation_lines(unknown, unreadable)))
            }
        },
        (Phase::NewFile(i), EventView::FileCreated(id)) => (
            RunView { phase: Phase::TagFile(i), file_ids: run.file_ids.push(id), ..run },
            ActionView::TagEntry {
                entry: id,
                tags: tag_ids_of(run.plan.files[i as int].tags, run.plan.tags, run.tag_ids),
            },
        ),
        (Phase::TagFile(i), EventView::Tagged) => (
            RunView { phase: Phase::CopyFile(i), ..run },
            ActionView::CopyFile {
                file: run.plan.files[i as int].file,
                name: stored_name(run.file_ids[i as int], run.plan.files[i as int].extension),
            },
        ),
        (Phase::CopyFile(i), EventView::Copied(failure)) => enter_files(
            RunView {
                logs: match failure {
                    Some(why) => run.logs.push(copy_error_line(run.plan.files[i as int].file, why)),
                    None => run.logs,
                },
                ..run
            },
            i + 1,
        ),
        (Phase::NewSet(g), EventView::SetCreated(Ok(id))) => (
            RunView { phase: Phase::TagSet(g), ..run },
            ActionView::TagEntry {
                entry: id,
                tags: tag_ids_of(run.plan.sets[g as int].tags, run.plan.tags, run.tag_ids),
            },
        ),
        (Phase::NewSet(g), EventView::SetCreated(Err(e))) => finished(
            run,
            Err(seq![set_error_line(e)]),
        ),
        (Phase::TagSet(g), EventView::Tagged) => enter_sets(run, g + 1),
        _ => finished(run, Err(seq!["Unexpected event"@])),
    }
}

/// What a run can rely on: its plan refers to nothing outside itself, and
/// it holds an identity for every tag and every file that it has asked
/// for.
pub open spec fn sound(run: RunView) -> bool {
    &&& closed(run.plan)
    &&& run.plan.files.len() <= usize::MAX
    &&& run.plan.sets.len() <= usize::MAX
    &&& match run.phase {
        Phase::Validating => run.file_ids.len() == 0,
        Phase::NewFile(i) => {
            &&& i < run.plan.files.len()
            &&& run.file_ids.len() == i
            &&& run.tag_ids.len() == run.plan.tags.len()
        },
        Phase::TagFile(i) => {
            &&& i < run.plan.files.len()
            &&& run.file_ids.len() == i + 1
            &&& run.tag_ids.len() == run.plan.tags.len()
        },
        Phase::CopyFile(i) => {
            &&& i < run.plan.files.len()
            &&& run.file_ids.len() == i + 1
            &&& run.tag_ids.len() == run.plan.tags.len()
        },
        Phase::NewSet(g) => {
            &&& g < run.plan.sets.len()
            &&& run.file_ids.len() == run.plan.files.len()
            &&& run.tag_ids.len() == run.plan.tags.len()
        },
        Phase::TagSet(g) => {
            &&& g < run.plan.sets.len()
            &&& run.file_ids.len() == run.plan.files.len()
            &&& run.tag_ids.len() == run.plan.tags.len()
        },
        Phase::Done => true,
    }
}

/// A step keeps a run sound.
pub proof fn lemma_step_keeps_sound(run: RunView, event: EventView)
    requires
        sound(run),
    ensures
        sound(step_of(run, event).0),
        step_of(run, event).0.plan == run.plan,
{
}

/// Whether an action asks the catalog or its store to change.
pub open spec fn changes_something(action: ActionView) -> bool {
    action is NewFile || action is TagEntry || action is CopyFile || action is NewSet
}

/// Where the catalog does not know a tag, or a file cannot be read,
/// validation ends the run in failure and changes nothing: the lines name
/// every unknown tag and every file that cannot be read.
pub proof fn lemma_failed_validation_ends_the_run(
    run: RunView,
    tags: Seq<Option<i64>>,
    readable: Seq<bool>,
)
    requires
        run.phase == Phase::Validating,
        !all_known(run.plan.tags.len() as int, known_tags(tags)) || !all_known(
            run.plan.files.len() as int,
            readable,
        ),
    ensures
        step_of(run, EventView::Validated { tags, readable }) == finished(
            run,
            Err(
                validation_lines(
                    unknown_among(run.plan.tags, known_tags(tags)),
                    unknown_among(paths_of(run.plan), readable),
                ),
            ),
        ),
        validation_lines(
            unknown_among(run.plan.tags, known_tags(tags)),
            unknown_among(paths_of(run.plan), readable),
        ).len() > 0,
{
    lemma_none_unknown(run.plan.tags, known_tags(tags));
    lemma_none_unknown(paths_of(run.plan), readable);
}

/// A run asks for a change only once validation has passed: every tag is
/// known and every file can be read.
pub proof fn lemma_changes_need_validation(run: RunView, event: EventView)
    requires
        run.phase == Phase::Validating,
        changes_something(step_of(run, event).1),
    ensures
        event matches EventView::Validated { tags, readable } && all_known(
            run.plan.tags.len() as int,
            known_tags(tags),
        ) && all_known(run.plan.files.len() as int, readable),
{
    match event {
        EventView::Validated { tags, readable } => {
            lemma_none_unknown(run.plan.tags, known_tags(tags));
            lemma_none_unknown(paths_of(run.plan), readable);
        },
        _ => {},
    }
}

/// A run that is over stays over, and asks for nothing.
pub proof fn lemma_over_stays_over(run: RunView, event: EventView)
    requires
        run.phase == Phase::Done,
    ensures
        step_of(run, event).0.phase == Phase::Done,
        step_of(run, event).1 is Finish,
{
}

/// What a run asks for, action by action, as it is told the events
/// `events` one after the other; and the run after them.
pub open spec fn run_of(run: RunView, events: Seq<EventView>) -> (RunView, Seq<ActionView>)
    decreases events.len(),
{
    if events.len() == 0 {
        (run, Seq::empty())
    } else {
        let (before, actions) = run_of(run, events.drop_last());
        let (after, action) = step_of(before, events.last());
        (after, actions.push(action))
    }
}

/// After a validation that failed a run asks for no change, whatever it is
/// told from then on: the catalog and its store stay as they were.
pub proof fn lemma_failed_validation_changes_nothing(
    run: RunView,
    tags: Seq<Option<i64>>,
    readable: Seq<bool>,
    events: Seq<EventView>,
)
    requires
        run.phase == Phase::Validating,
        !all_known(run.plan.tags.len() as int, known_tags(tags)) || !all_known(
            run.plan.files.len() as int,
            readable,
        ),
        events.len() > 0,
        events[0] == (EventView::Validated { tags, readable }),
    ensures
        run_of(run, events).0.phase == Phase::Done,
        run_of(run, events).1.len() == events.len(),
        forall|k: int|
            0 <= k < events.len() ==> !changes_something(#[trigger] run_of(run, events).1[k]),
    decreases events.len(),
{
    let shorter = events.drop_last();
    if shorter.len() == 0 {
        assert(run_of(run, shorter) == (run, Seq::<ActionView>::empty()));
        assert(events.last() == events[0]);
        lemma_failed_validation_ends_the_run(run, tags, readable);
    } else {
        assert(shorter[0] == events[0]);
        lemma_failed_validation_changes_nothing(run, tags, readable, shorter);
        let (before, actions) = run_of(run, shorter);
        lemma_over_stays_over(before, events.last());
        assert forall|k: int| 0 <= k < events.len() implies !changes_something(
            #[trigger] run_of(run, events).1[k],
        ) by {
            if k < shorter.len() {
                assert(run_of(run, events).1[k] == actions[k]);
            }
        }
    }
}

/// A run that is told two runs of events one after the other asks for what
/// it asks for on the first, and then for what the run after the first
/// asks for on the second.
pub proof fn lemma_run_of_concat(run: RunView, first: Seq<EventView>, second: Seq<EventView>)
    ensures
        run_of(run, first + second) == ({
            let (middle, before) = run_of(run, first);
            let (end, after) = run_of(middle, second);
            (end, before + after)
        }),
    decreases second.len(),
{
    let (middle, before) = run_of(run, first);
    if second.len() == 0 {
        assert(first + second =~= first);
        assert(before + Seq::<ActionView>::empty() =~= before);
    } else {
        lemma_run_of_concat(run, first, second.drop_last());
        assert((first + second).drop_last() =~= first + second.drop_last());
        assert((first + second).last() == second.last());
        let (almost, most) = run_of(middle, second.drop_last());
        let (end, action) = step_of(almost, second.last());
        assert(before + most.push(action) =~= (before + most).push(action));
    }
}

/// What a run is told while it commits files that get the identities
/// `ids` and whose copies end as `copies` says: for each file its
/// identity, that its tags are attached, and what came of the copy.
pub open spec fn events_of_files(ids: Seq<i64>, copies: Seq<Option<Seq<char>>>) -> Seq<EventView>
    decreases ids.len(),
{
    if ids.len() == 0 {
        Seq::empty()
    } else {
        events_of_files(ids.drop_last(), copies.drop_last()) + seq![
            EventView::FileCreated(ids.last()),
            EventView::Tagged,
            EventView::Copied(copies.last()),
        ]
    }
}

/// The lines that the copies `copies` of the first files of `files` leave:
/// one for each copy that failed, in the order of the files.
pub open spec fn lines_of_failures(
    files: Seq<PlannedFileView>,
    copies: Seq<Option<Seq<char>>>,
) -> Seq<Seq<char>>
    decreases copies.len(),
{
    if copies.len() == 0 {
        Seq::empty()
    } else {
        let before = lines_of_failures(files, copies.drop_last());
        match copies.last() {
            Some(why) => before.push(copy_error_line(files[copies.len() - 1].file, why)),
            None => before,
        }
    }
}

/// What a run asks for on the three events of one file.
proof fn lemma_one_file(run: RunView, id: i64, copy: Option<Seq<char>>)
    requires
        sound(run),
        run.phase is NewFile,
    ensures
        ({
            let i = run.phase->NewFile_0 as int;
            let (end, actions) = run_of(
                run,
                seq![EventView::FileCreated(id), EventView::Tagged, EventView::Copied(copy)],
            );
            let line = match copy {
                Some(why) => seq![copy_error_line(run.plan.files[i].file, why)],
                None => Seq::empty(),
            };
            let logged = RunView {
                file_ids: run.file_ids.push(id),
                logs: run.logs + line,
                phase: Phase::CopyFile(i as usize),
                ..run
            };
            &&& actions.len() == 3
            &&& actions[0] == (ActionView::TagEntry {
                entry: id,
                tags: tag_ids_of(run.plan.files[i].tags, run.plan.tags, run.tag_ids),
            })
            &&& actions[1] == (ActionView::CopyFile {
                file: run.plan.files[i].file,
                name: stored_name(id, run.plan.files[i].extension),
            })
            &&& (end, actions[2]) == enter_files(logged, i + 1)
        }),
{
    let i = run.phase->NewFile_0 as int;
    let e1 = EventView::FileCreated(id);
    let e2 = EventView::Tagged;
    let e3 = EventView::Copied(copy);
    let all = seq![e1, e2, e3];
    let two = seq![e1, e2];
    let one = seq![e1];
    assert(all.drop_last() =~= two);
    assert(two.drop_last() =~= one);
    assert(one.drop_last() =~= Seq::<EventView>::empty());
    assert(run_of(run, Seq::<EventView>::empty()) == (run, Seq::<ActionView>::empty()));
    let (r1, a1) = step_of(run, e1);
    assert(run_of(run, one) == (r1, Seq::<ActionView>::empty().push(a1)));
    let (r2, a2) = step_of(r1, e2);
    assert(run_of(run, two) == (r2, Seq::<ActionView>::empty().push(a1).push(a2)));
    let (r3, a3) = step_of(r2, e3);
    assert(run_of(run, all) == (r3, Seq::<ActionView>::empty().push(a1).push(a2).push(a3)));
    assert(r1.file_ids[i] == id);
    match copy {
        Some(why) => {
            assert(run.logs.push(copy_error_line(run.plan.files[i].file, why)) =~= run.logs
                + seq![copy_error_line(run.plan.files[i].file, why)]);
        },
        None => {
            assert(run.logs + Seq::<Seq<char>>::empty() =~= run.logs);
        },
    }
}

/// Every file of a script gets its entry and its tags, in the order of the
/// script and whatever comes of the copies: a copy that fails leaves its
/// line and stops nothing. So after the first files of the plan the run
/// holds their identities and a line for each copy that failed, and it
/// stands at the next file; or, after the last file of a plan without
/// sets, it has ended in success with exactly these lines.
pub proof fn lemma_files_are_committed_whatever_the_copies(
    run: RunView,
    ids: Seq<i64>,
    copies: Seq<Option<Seq<char>>>,
)
    requires
        sound(run),
        run.phase == Phase::NewFile(0),
        ids.len() == copies.len(),
        ids.len() <= run.plan.files.len(),
    ensures
        ({
            let (end, actions) = run_of(run, events_of_files(ids, copies));
            let lines = run.logs + lines_of_failures(run.plan.files, copies);
            &&& end.plan == run.plan
            &&& end.tag_ids == run.tag_ids
            &&& end.file_ids == ids
            &&& end.logs == lines
            &&& actions.len() == 3 * ids.len()
            &&& forall|i: int|
                0 <= i < ids.len() ==> #[trigger] actions[3 * i] == (ActionView::TagEntry {
                    entry: ids[i],
                    tags: tag_ids_of(run.plan.files[i].tags, run.plan.tags, run.tag_ids),
                })
            &&& ids.len() < run.plan.files.len() ==> end.phase == Phase::NewFile(
                ids.len() as usize,
            )
            &&& ids.len() == run.plan.files.len() && run.plan.sets.len() == 0 ==> end.phase
                == Phase::Done && actions.last() == ActionView::Finish(Ok(lines))
        }),
    decreases ids.len(),
{
    let lines = run.logs + lines_of_failures(run.plan.files, copies);
    if ids.len() == 0 {
        assert(run_of(run, Seq::<EventView>::empty()) == (run, Seq::<ActionView>::empty()));
        assert(run.file_ids =~= ids);
        assert(lines =~= run.logs);
    } else {
        let k = ids.len() - 1;
        let before_ids = ids.drop_last();
        let before_copies = copies.drop_last();
        lemma_files_are_committed_whatever_the_copies(run, before_ids, before_copies);
        let first = events_of_files(before_ids, before_copies);
        let last = seq![
            EventView::FileCreated(ids.last()),
            EventView::Tagged,
            EventView::Copied(copies.last()),
        ];
        lemma_run_of_concat(run, first, last);
        let (middle, before) = run_of(run, first);
        assert(middle.phase == Phase::NewFile(k as usize));
        lemma_sound_run_stays_sound(run, first);
        lemma_one_file(middle, ids.last(), copies.last());
        let (end, after) = run_of(middle, last);
        let actions = before + after;
        assert(run_of(run, events_of_files(ids, copies)) == (end, actions));
        assert(before_ids.push(ids.last()) =~= ids);
        assert(end.file_ids =~= ids);
        assert(end.logs =~= lines) by {
            let earlier = lines_of_failures(run.plan.files, before_copies);
            match copies.last() {
                Some(why) => {
                    assert((run.logs + earlier) + seq![
                        copy_error_line(run.plan.files[k].file, why),
                    ] =~= run.logs + earlier.push(copy_error_line(run.plan.files[k].file, why)));
                },
                None => {
                    assert((run.logs + earlier) + Seq::<Seq<char>>::empty() =~= run.logs
                        + earlier);
                },
            }
        }
        assert forall|i: int| 0 <= i < ids.len() implies #[trigger] actions[3 * i] == (
        ActionView::TagEntry {
            entry: ids[i],
            tags: tag_ids_of(run.plan.files[i].tags, run.plan.tags, run.tag_ids),
        }) by {
            if i < k {
                assert(actions[3 * i] == before[3 * i]);
                assert(before_ids[i] == ids[i]);
            } else {
                assert(actions[3 * i] == after[0]);
            }
        }
        assert(actions.last() == after[2]);
    }
}

/// A sound run stays sound, whatever it is told.
pub proof fn lemma_sound_run_stays_sound(run: RunView, events: Seq<EventView>)
    requires
        sound(run),
    ensures
        sound(run_of(run, events).0),
        run_of(run, events).0.plan == run.plan,
    decreases events.len(),
{
    if events.len() > 0 {
        lemma_sound_run_stays_sound(run, events.drop_last());
        lemma_step_keeps_sound(run_of(run, events.drop_last()).0, events.last());
    }
}

/// The cover of a set that a run asks for is the first of its members, and
/// the members are the files that the script lists in the group, in its
/// order.
pub proof fn lemma_cover_is_first_member(run: RunView, event: EventView)
    requires
        sound(run),
        step_of(run, event).1 is NewSet,
    ensures
        ({
            let (next, action) = step_of(run, event);
            &&& next.phase matches Phase::NewSet(g)
            &&& action->NewSet_members == member_ids(next.plan.sets[g as int].members, next.file_ids)
            &&& action->NewSet_members.len() > 0
            &&& action->NewSet_cover == action->NewSet_members[0]
        }),
{
}

/// A set that the catalog refuses ends the run in failure, with the line
/// that says why.
pub proof fn lemma_refused_set_ends_the_run(run: RunView, e: CatalogErrorView)
    requires
        run.phase is NewSet,
    ensures
        step_of(run, EventView::SetCreated(Err(e))) == finished(run, Err(seq![set_error_line(e)])),
{
}

/// Bytes that could not be copied leave one line, which names the file,
/// and stop nothing: but for that line the run goes on as it does after
/// bytes that were copied.
pub proof fn lemma_failed_copy_only_leaves_a_line(run: RunView, why: Seq<char>)
    requires
        run.phase is CopyFile,
    ensures
        ({
            let line = copy_error_line(run.plan.files[run.phase->CopyFile_0 as int].file, why);
            let failed = step_of(run, EventView::Copied(Some(why)));
            let copied = step_of(run, EventView::Copied(None));
            &&& failed.0 == (RunView { logs: run.logs.push(line), ..copied.0 })
            &&& copied.0.logs == run.logs
            &&& if copied.1 is Finish && copied.1->Finish_0 is Ok {
                copied.1 == ActionView::Finish(Ok(run.logs)) && failed.1 == ActionView::Finish(
                    Ok(run.logs.push(line)),
                )
            } else {
                failed.1 == copied.1
            }
        }),
{
}

/// The lines of a run come from failed copies and from nothing else, and a
/// run that ends in success hands out its lines.
pub proof fn lemma_lines_come_from_failed_copies(run: RunView, event: EventView)
    ensures
        ({
            let (next, action) = step_of(run, event);
            &&& next.logs == run.logs || (run.phase matches Phase::CopyFile(i)
                && event matches EventView::Copied(Some(why)) && next.logs == run.logs.push(
                copy_error_line(run.plan.files[i as int].file, why),
            ))
            &&& action matches ActionView::Finish(Ok(lines)) ==> lines == next.logs
        }),
{
}

/// The files of a script get their entries in the order of the script, one
/// after the other, whatever came of the copies before: after the copy of
/// the file at position `i` the run asks for the entry of the next file,
/// if there is one.
pub proof fn lemma_every_file_gets_its_entry(run: RunView, failure: Option<Seq<char>>)
    requires
        run.phase is CopyFile,
        run.phase->CopyFile_0 + 1 < run.plan.files.len(),
        run.plan.files.len() <= usize::MAX,
    ensures
        ({
            let i = run.phase->CopyFile_0;
            let (next, action) = step_of(run, EventView::Copied(failure));
            &&& next.phase == Phase::NewFile((i + 1) as usize)
            &&& action == (ActionView::NewFile { extension: run.plan.files[i + 1].extension })
        }),
{
}

/// The lines that say why validation failed: see `validation_lines`.
pub fn validation_messages(unknown: &Vec<String>, unreadable: &Vec<String>) -> (lines: Vec<
    String,
>)
    ensures
        lines.deep_view() == validation_lines(unknown.deep_view(), unreadable.deep_view()),
{
    let mut lines: Vec<String> = Vec::new();
    if unknown.len() > 0 {
        lines.push(String::from_str("Unknown tags:"));
        let names: String = join(unknown, ", ");
        lines.push(concat3("\t", names.as_str(), ""));
    }
    if unreadable.len() > 0 {
        lines.push(String::from_str("Could not read files:"));
        let names: String = join(unreadable, ", ");
        lines.push(concat3("\t'", names.as_str(), "'"));
    }
    proof {
        let none = Seq::<char>::empty();
        assert(""@ =~= none) by {
            reveal_strlit("");
        }
        assert("\t"@ + joined(unknown.deep_view(), ", "@) + none =~= "\t"@ + joined(
            unknown.deep_view(),
            ", "@,
        ));
        assert(lines.deep_view() =~= validation_lines(
            unknown.deep_view(),
            unreadable.deep_view(),
        ));
    }
    lines
}

/// The name under which the bytes of a file are stored: see `stored_name`.
pub fn stored_file_name(id: i64, extension: &str) -> (name: String)
    ensures
        name@ == stored_name(id, extension@),
{
    let mut name: String = String::new();
    push_signed_decimal(&mut name, id);
    name.append(".");
    name.append(extension);
    proof {
        assert(name@ =~= stored_name(id, extension@));
    }
    name
}

/// The line for bytes that could not be copied: see `copy_error_line`.
pub fn copy_error(file: &str, why: &str) -> (line: String)
    ensures
        line@ == copy_error_line(file@, why@),
{
    let mut line: String = concat3("Error copying '", file, "': ");
    line.append(why);
    line
}

/// The line for a set that the catalog refused: see `set_error_line`.
pub fn set_error(e: &CatalogError) -> (line: String)
    ensures
        line@ == set_error_line(e@),
{
    match e {
        CatalogError::InvalidCover => String::from_str("Invalid cover"),
        CatalogError::InvalidId => String::from_str("Invalid file id"),
        CatalogError::NotFound => String::from_str("Invalid file id"),
        CatalogError::BelongsToSet => String::from_str("Invalid file id"),
        other => {
            let mut line: String = String::from_str("Unknown error ");
            let shown: String = other.description();
            line.append(shown.as_str());
            line
        },
    }
}

/// The position of `name` in `names`.
fn position_of(names: &Vec<String>, name: &str) -> (at: usize)
    requires
        names.deep_view().no_duplicates(),
        names.deep_view().contains(name@),
    ensures
        at < names@.len(),
        at == names.deep_view().index_of(name@),
{
    let ghost all = names.deep_view();
    let n: usize = names.len();
    let mut i: usize = 0;
    while i < n
        invariant
            n == names@.len(),
            all == names.deep_view(),
            i <= n,
            all.contains(name@),
            all.no_duplicates(),
            forall|j: int| 0 <= j < i ==> all[j] != name@,
        decreases n - i,
    {
        assert(all[i as int] == names@[i as int]@);
        if same_text(names[i].as_str(), name) {
            proof {
                let found = all.index_of(name@);
                assert(0 <= found < all.len() && all[found] == name@);
                assert(all.no_duplicates());
                if found != i {
                    assert(all[found] != all[i as int]);
                }
            }
            return i;
        }
        i = i + 1;
    }
    proof {
        let found = all.index_of(name@);
        assert(0 <= found < all.len() && all[found] == name@);
    }
    unreached()
}

/// The identities of the tags `tags`: see `tag_ids_of`.
fn ids_of(tags: &Vec<String>, names: &Vec<String>, ids: &Vec<i64>) -> (found: Vec<i64>)
    requires
        names.deep_view().no_duplicates(),
        ids@.len() == names@.len(),
        forall|t: int|
            0 <= t < tags@.len() ==> names.deep_view().contains(#[trigger] tags.deep_view()[t]),
    ensures
        found@ == tag_ids_of(tags.deep_view(), names.deep_view(), ids@),
{
    let ghost wanted = tags.deep_view();
    let n: usize = tags.len();
    let mut found: Vec<i64> = Vec::new();
    let mut i: usize = 0;
    while i < n
        invariant
            n == tags@.len(),
            wanted == tags.deep_view(),
            names.deep_view().no_duplicates(),
            ids@.len() == names@.len(),
            forall|t: int| 0 <= t < n ==> names.deep_view().contains(#[trigger] wanted[t]),
            i <= n,
            found@.len() == i,
            forall|k: int|
                0 <= k < i ==> found@[k] == ids@[names.deep_view().index_of(wanted[k])],
        decreases n - i,
    {
        assert(wanted[i as int] == tags@[i as int]@);
        let at: usize = position_of(names, tags[i].as_str());
        found.push(ids[at]);
        i = i + 1;
    }
    proof {
        assert(found@ =~= tag_ids_of(wanted, names.deep_view(), ids@));
    }
    found
}

/// The identities of the files at the positions `members`.
fn ids_of_members(members: &Vec<usize>, file_ids: &Vec<i64>) -> (ids: Vec<i64>)
    requires
        forall|m: int| 0 <= m < members@.len() ==> (#[trigger] members@[m]) < file_ids@.len(),
    ensures
        ids@ == member_ids(crate::commands::script_parser::positions(members@), file_ids@),
{
    let n: usize = members.len();
    let mut ids: Vec<i64> = Vec::new();
    let mut i: usize = 0;
    while i < n
        invariant
            n == members@.len(),
            forall|m: int| 0 <= m < n ==> (#[trigger] members@[m]) < file_ids@.len(),
            i <= n,
            ids@.len() == i,
            forall|k: int| 0 <= k < i ==> ids@[k] == file_ids@[members@[k] as int],
        decreases n - i,
    {
        ids.push(file_ids[members[i]]);
        i = i + 1;
    }
    proof {
        assert(ids@ =~= member_ids(crate::commands::script_parser::positions(members@), file_ids@));
    }
    ids
}

/// The paths of the files of `plan`, in their order.
fn paths(plan: &Plan) -> (list: Vec<String>)
    ensures
        list.deep_view() == paths_of(plan@),
{
    let n: usize = plan.files.len();
    let mut list: Vec<String> = Vec::new();
    let mut i: usize = 0;
    while i < n
        invariant
            n == plan.files@.len(),
            i <= n,
            list@.len() == i,
            forall|k: int| 0 <= k < i ==> (#[trigger] list@[k])@ == plan.files@[k]@.file,
        decreases n - i,
    {
        list.push(plan.files[i].file.clone());
        i = i + 1;
    }
    proof {
        assert(list.deep_view() =~= paths_of(plan@));
    }
    list
}

/// How a run starts on the script `script`: a script that cannot be read
/// ends the run at once, with the one line that says why; any other script
/// starts the run with the plan of its document, and the run asks for
/// validation.
pub open spec fn start_of(script: Seq<u8>, run: RunView, action: ActionView) -> bool {
    match parsed_script(script) {
        Err(lines) => run.phase == Phase::Done && action == ActionView::Finish(Err(lines)),
        Ok(data) => {
            &&& plan_of(run.plan, data)
            &&& run.phase == Phase::Validating
            &&& run.file_ids.len() == 0
            &&& run.logs.len() == 0
            &&& action == (ActionView::Validate { tags: run.plan.tags, files: paths_of(run.plan) })
        },
    }
}

/// The run of one script.
#[derive(Debug)]
pub struct ScriptRun {
    plan: Plan,
    phase: Phase,
    tag_ids: Vec<i64>,
    file_ids: Vec<i64>,
    logs: Vec<String>,
}

impl View for ScriptRun {
    type V = RunView;

    closed spec fn view(&self) -> RunView {
        RunView {
            plan: self.plan@,
            phase: self.phase,
            tag_ids: self.tag_ids@,
            file_ids: self.file_ids@,
            logs: self.logs.deep_view(),
        }
    }
}

impl ScriptRun {
    #[verifier::type_invariant]
    spec fn is_sound(self) -> bool {
        sound(self@)
    }

    /// A run that is over before it began.
    fn over() -> (run: ScriptRun)
        ensures
            run@.phase == Phase::Done,
    {
        let plan = Plan { tags: Vec::new(), files: Vec::new(), sets: Vec::new() };
        proof {
            assert(plan@.tags =~= Seq::<Seq<char>>::empty());
            assert(plan@.files =~= Seq::<PlannedFileView>::empty());
            assert(plan@.sets =~= Seq::<PlannedSetView>::empty());
        }
        ScriptRun {
            plan,
            phase: Phase::Done,
            tag_ids: Vec::new(),
            file_ids: Vec::new(),
            logs: Vec::new(),
        }
    }

    /// Starts the run of the script `script`: see `start_of`.
    pub fn start(script: &str) -> (started: (ScriptRun, Action))
        ensures
            start_of(script.spec_bytes(), started.0@, started.1@),
    {
        match parse_script(script) {
            Ok(data) => ScriptRun::of_document(&data),
            Err(lines) => (ScriptRun::over(), Action::Finish(Err(lines))),
        }
    }

    /// Starts the run of a script whose document is `data`: with the plan
    /// of the document, and by asking for validation.
    pub fn of_document(data: &Data) -> (started: (ScriptRun, Action))
        requires
            well_formed(data@),
        ensures
            plan_of(started.0@.plan, data@),
            started.0@.phase == Phase::Validating,
            started.0@.file_ids.len() == 0,
            started.0@.logs.len() == 0,
            started.1@ == (ActionView::Validate {
                tags: started.0@.plan.tags,
                files: paths_of(started.0@.plan),
            }),
    {
        let plan: Plan = Plan::of(data);
        proof {
            lemma_plan_of_well_formed_is_closed(plan@, data@);
        }
        let action = Action::Validate { tags: copy_of_texts(&plan.tags), files: paths(&plan) };
        let files: usize = plan.files.len();
        let sets: usize = plan.sets.len();
        assert(plan@.files.len() == files && plan@.sets.len() == sets);
        let run = ScriptRun {
            plan,
            phase: Phase::Validating,
            tag_ids: Vec::new(),
            file_ids: Vec::new(),
            logs: Vec::new(),
        };
        (run, action)
    }

    /// Where the run stands.
    pub fn phase(&self) -> (phase: Phase)
        ensures
            phase == self@.phase,
    {
        self.phase
    }

    /// Whether the run is over.
    pub fn is_over(&self) -> (over: bool)
        ensures
            over == (self@.phase == Phase::Done),
    {
        match self.phase {
            Phase::Done => true,
            _ => false,
        }
    }

    /// What the run lays out to do.
    pub fn plan(&self) -> (plan: &Plan)
        ensures
            plan@ == self@.plan,
    {
        &self.plan
    }

    /// The identities of the files that have one.
    pub fn file_ids(&self) -> (ids: &Vec<i64>)
        ensures
            ids@ == self@.file_ids,
    {
        &self.file_ids
    }

    /// Ends the run.
    fn finish(self, result: Result<Vec<String>, Vec<String>>) -> (next: (ScriptRun, Action))
        ensures
            next.0@ == (RunView { phase: Phase::Done, ..self@ }),
            next.1 == Action::Finish(result),
    {
        proof {
            use_type_invariant(&self);
        }
        let ScriptRun { plan, phase, tag_ids, file_ids, logs } = self;
        (ScriptRun { plan, phase: Phase::Done, tag_ids, file_ids, logs }, Action::Finish(result))
    }

    /// Comes to the set at position `g`: see `enter_sets`.
    fn to_set(self, g: usize) -> (next: (ScriptRun, Action))
        requires
            g <= self@.plan.sets.len(),
            self@.file_ids.len() == self@.plan.files.len(),
            self@.tag_ids.len() == self@.plan.tags.len(),
        ensures
            (next.0@, next.1@) == enter_sets(self@, g as int),
    {
        proof {
            use_type_invariant(&self);
        }
        if g < self.plan.sets.len() {
            assert(self.plan@.sets[g as int] == self.plan.sets@[g as int]@);
            if self.plan.sets[g].members.len() == 0 {
                let lines: Vec<String> = vec![String::from_str("Cannot create empty set")];
                proof {
                    assert(lines.deep_view() =~= seq!["Cannot create empty set"@]);
                }
                self.finish(Err(lines))
            } else {
                let ghost listed = self.plan@.sets[g as int].members;
                assert forall|m: int| 0 <= m < self.plan.sets@[g as int].members@.len() implies (
                #[trigger] self.plan.sets@[g as int].members@[m]) < self.file_ids@.len() by {
                    assert(listed[m] == self.plan.sets@[g as int].members@[m] as int);
                    assert(0 <= listed[m] < self.plan@.files.len());
                }
                let first: usize = self.plan.sets[g].members[0];
                assert(listed[0] == first as int);
                let cover: i64 = self.file_ids[first];
                let members: Vec<i64> = ids_of_members(&self.plan.sets[g].members, &self.file_ids);
                let ScriptRun { plan, phase, tag_ids, file_ids, logs } = self;
                (
                    ScriptRun { plan, phase: Phase::NewSet(g), tag_ids, file_ids, logs },
                    Action::NewSet { cover, members },
                )
            }
        } else {
            let lines: Vec<String> = copy_of_texts(&self.logs);
            self.finish(Ok(lines))
        }
    }

    /// Comes to the file at position `i`: see `enter_files`.
    fn to_file(self, i: usize) -> (next: (ScriptRun, Action))
        requires
            i <= self@.plan.files.len(),
            self@.file_ids.len() == i,
            self@.tag_ids.len() == self@.plan.tags.len(),
        ensures
            (next.0@, next.1@) == enter_files(self@, i as int),
    {
        proof {
            use_type_invariant(&self);
        }
        if i < self.plan.files.len() {
            assert(self.plan@.files[i as int] == self.plan.files@[i as int]@);
            let extension: String = self.plan.files[i].extension.clone();
            let ScriptRun { plan, phase, tag_ids, file_ids, logs } = self;
            (
                ScriptRun { plan, phase: Phase::NewFile(i), tag_ids, file_ids, logs },
                Action::NewFile { extension },
            )
        } else {
            self.to_set(0)
        }
    }

    /// Takes one step: the run is told what came of the action that it
    /// asked for, and says what is to be done next. See `step_of`.
    pub fn step(self, event: Event) -> (next: (ScriptRun, Action))
        ensures
            (next.0@, next.1@) == step_of(self@, event@),
    {
        proof {
            use_type_invariant(&self);
            lemma_step_keeps_sound(self@, event@);
        }
        match (self.phase, event) {
            (Phase::Validating, Event::Validated { tags, readable }) => {
                let marks: Vec<bool> = known(&tags);
                let unknown: Vec<String> = unknown_names(&self.plan.tags, &marks);
                let files: Vec<String> = paths(&self.plan);
                let unreadable: Vec<String> = unknown_names(&files, &readable);
                if unknown.len() == 0 && unreadable.len() == 0 {
                    proof {
                        lemma_none_unknown(self@.plan.tags, known_tags(tags@));
                        assert forall|i: int| 0 <= i < self.plan.tags@.len() implies i < tags@.len()
                            && (#[trigger] tags@[i]) is Some by {
                            assert(i < known_tags(tags@).len() && known_tags(tags@)[i]);
                        }
                        if self.plan.tags@.len() > 0 {
                            let last = self.plan.tags@.len() - 1;
                            assert(last < tags@.len() && tags@[last] is Some);
                        }
                    }
                    let ids: Vec<i64> = identities_of(&tags, self.plan.tags.len());
                    let ScriptRun { plan, phase, tag_ids, file_ids, logs } = self;
                    let ghost before = RunView {
                        tag_ids: ids@,
                        ..(ScriptRun { plan, phase, tag_ids, file_ids, logs })@
                    };
                    let run = ScriptRun { plan, phase, tag_ids: ids, file_ids, logs };
                    assert(run@ =~= before);
                    run.to_file(0)
                } else {
                    self.finish(Err(validation_messages(&unknown, &unreadable)))
                }
            },
            (Phase::NewFile(i), Event::FileCreated(id)) => {
                assert(self.plan@.files[i as int] == self.plan.files@[i as int]@);
                let tags: Vec<i64> = ids_of(
                    &self.plan.files[i].tags,
                    &self.plan.tags,
                    &self.tag_ids,
                );
                let ScriptRun { plan, phase, tag_ids, mut file_ids, logs } = self;
                file_ids.push(id);
                (
                    ScriptRun { plan, phase: Phase::TagFile(i), tag_ids, file_ids, logs },
                    Action::TagEntry { entry: id, tags },
                )
            },
            (Phase::TagFile(i), Event::Tagged) => {
                assert(self.plan@.files[i as int] == self.plan.files@[i as int]@);
                let file: String = self.plan.files[i].file.clone();
                let name: String = stored_file_name(
                    self.file_ids[i],
                    self.plan.files[i].extension.as_str(),
                );
                let ScriptRun { plan, phase, tag_ids, file_ids, logs } = self;
                (
                    ScriptRun { plan, phase: Phase::CopyFile(i), tag_ids, file_ids, logs },
                    Action::CopyFile { file, name },
                )
            },
            (Phase::CopyFile(i), Event::Copied(failure)) => {
                assert(self.plan@.files[i as int] == self.plan.files@[i as int]@);
                let ScriptRun { plan, phase, tag_ids, file_ids, mut logs } = self;
                let ghost lines = logs.deep_view();
                match failure {
                    Some(why) => {
                        let line: String = copy_error(plan.files[i].file.as_str(), why.as_str());
                        logs.push(line);
                        proof {
                            assert(logs.deep_view() =~= lines.push(line@));
                        }
                    },
                    None => {},
                }
                let run = ScriptRun { plan, phase, tag_ids, file_ids, logs };
                run.to_file(i + 1)
            },
            (Phase::NewSet(g), Event::SetCreated(Ok(id))) => {
                assert(self.plan@.sets[g as int] == self.plan.sets@[g as int]@);
                let tags: Vec<i64> = ids_of(&self.plan.sets[g].tags, &self.plan.tags, &self.tag_ids);
                let ScriptRun { plan, phase, tag_ids, file_ids, logs } = self;
                (
                    ScriptRun { plan, phase: Phase::TagSet(g), tag_ids, file_ids, logs },
                    Action::TagEntry { entry: id, tags },
                )
            },
            (Phase::NewSet(g), Event::SetCreated(Err(e))) => {
                let lines: Vec<String> = vec![set_error(&e)];
                proof {
                    assert(lines.deep_view() =~= seq![set_error_line(e@)]);
                }
                self.finish(Err(lines))
            },
            (Phase::TagSet(g), Event::Tagged) => self.to_set(g + 1),
            (_, _) => {
                let lines: Vec<String> = vec![String::from_str("Unexpected event")];
                proof {
                    assert(lines.deep_view() =~= seq!["Unexpected event"@]);
                }
                self.finish(Err(lines))
            },
        }
    }
}

} // verus!
