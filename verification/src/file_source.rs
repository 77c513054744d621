//! Sources that are files, and the one door through which their content is read.
//!
//! Reading the content of a source alternates between questions to the file system and decisions.
//! [`FileSource::content`] makes the decisions: given what the file system replied, it asks for
//! something more, or is done. Every build path reads through it, so this is where a lazy source is
//! held back.
use vstd::prelude::*;
use crate::lazy_reveal::{
    is_lazy_path, law_lazy_in_the_name, law_lazy_paths_by_name, lazy_path, source_deferred, Session,
};
use crate::path::{FileContent, FileSystemEntryType, FileSystemPath, LinkContent, LinkType};

verus! {

/// What an asset holds.
#[derive(Debug)]
pub enum AssetContent {
    File(FileContent),
    /// The asset is a link, to be followed by whoever asked.
    Redirect { target: String, link_type: LinkType },
}

/// What an asset holds, as mathematical values.
pub enum AssetModel {
    File(Option<Seq<u8>>),
    Redirect { target: Seq<char>, link_type: LinkType },
}

impl View for AssetContent {
    type V = AssetModel;

    open spec fn view(&self) -> AssetModel {
        match *self {
            AssetContent::File(content) => AssetModel::File(content@),
            AssetContent::Redirect { target, link_type } => AssetModel::Redirect {
                target: target@,
                link_type,
            },
        }
    }
}

/// Why a source has no content.
#[derive(Clone, Copy, PartialEq, Eq, Debug, Structural)]
pub enum SourceError {
    /// There is a symbolic link, and it cannot be followed.
    InvalidSymlink,
    /// There is something that is neither a file nor a link.
    InvalidFileType(FileSystemEntryType),
}

impl SourceError {
    /// What the error says.
    pub open spec fn spec_message(self) -> Seq<char> {
        match self {
            SourceError::InvalidSymlink => "Invalid symlink"@,
            SourceError::InvalidFileType(kind) => "Invalid file type "@ + kind.spec_name(),
        }
    }

    /// What the error says.
    pub fn message(&self) -> (message: String)
        ensures
            message@ == self.spec_message(),
    {
        match self {
            SourceError::InvalidSymlink => "Invalid symlink".to_owned(),
            SourceError::InvalidFileType(kind) => "Invalid file type ".to_owned().concat(
                kind.name(),
            ),
        }
    }
}

/// A question to the file system about the path of a source.
#[derive(Clone, Copy, PartialEq, Eq, Debug, Structural)]
pub enum ContentRequest {
    /// What stands at the path?
    GetType,
    /// What does the symbolic link hold?
    ReadLink,
    /// What does the file hold?
    Read,
}

/// The answer to a [`ContentRequest`].
#[derive(Debug)]
pub enum ContentReply {
    Type(FileSystemEntryType),
    Link(LinkContent),
    File(FileContent),
}

/// What comes next in reading the content of a source.
#[derive(Debug)]
pub enum ContentStep {
    /// Ask the file system, and come back with its reply.
    Ask(ContentRequest),
    Done(Result<AssetContent, SourceError>),
}

/// What comes next, as mathematical values.
pub enum StepModel {
    Ask(ContentRequest),
    Done(Result<AssetModel, SourceError>),
}

impl View for ContentStep {
    type V = StepModel;

    open spec fn view(&self) -> StepModel {
        match *self {
            ContentStep::Ask(request) => StepModel::Ask(request),
            ContentStep::Done(Ok(content)) => StepModel::Done(Ok(content@)),
            ContentStep::Done(Err(error)) => StepModel::Done(Err(error)),
        }
    }
}

/// What comes after `reply`, or at the start where there is none yet. `deferred` is whether the
/// source is held back.
pub open spec fn next_step(deferred: bool, reply: Option<ContentReply>) -> StepModel {
    match reply {
        None => StepModel::Ask(ContentRequest::GetType),
        Some(ContentReply::Type(kind)) => match kind {
            FileSystemEntryType::Symlink => StepModel::Ask(ContentRequest::ReadLink),
            FileSystemEntryType::File => if deferred {
                StepModel::Done(Ok(AssetModel::File(Some(seq![]))))
            } else {
                StepModel::Ask(ContentRequest::Read)
            },
            FileSystemEntryType::NotFound => StepModel::Done(Ok(AssetModel::File(None))),
            _ => StepModel::Done(Err(SourceError::InvalidFileType(kind))),
        },
        Some(ContentReply::Link(LinkContent::Link { target, link_type })) => StepModel::Done(
            Ok(AssetModel::Redirect { target: target@, link_type }),
        ),
        Some(ContentReply::Link(_)) => StepModel::Done(Err(SourceError::InvalidSymlink)),
        Some(ContentReply::File(content)) => StepModel::Done(Ok(AssetModel::File(content@))),
    }
}

/// What identifies an asset: the path of a source, with the query and the fragment that it was asked
/// for with.
#[derive(Debug)]
pub struct AssetIdent {
    pub path: FileSystemPath,
    pub query: String,
    pub fragment: String,
}

/// The raw content at a path, without any references to other sources.
#[derive(Debug)]
pub struct FileSource {
    pub path: FileSystemPath,
    pub query: String,
    pub fragment: String,
}

impl FileSource {
    /// The source at `path`.
    pub fn new(path: FileSystemPath) -> (source: Self)
        ensures
            source.path == path,
            source.query@ == Seq::<char>::empty(),
            source.fragment@ == Seq::<char>::empty(),
    {
        FileSource::new_with_query_and_fragment(path, String::new(), String::new())
    }

    /// The source at `path`, asked for with `query`.
    pub fn new_with_query(path: FileSystemPath, query: String) -> (source: Self)
        ensures
            source.path == path,
            source.query == query,
            source.fragment@ == Seq::<char>::empty(),
    {
        FileSource::new_with_query_and_fragment(path, query, String::new())
    }

    /// The source at `path`, asked for with `query` and `fragment`.
    pub fn new_with_query_and_fragment(
        path: FileSystemPath,
        query: String,
        fragment: String,
    ) -> (source: Self)
        ensures
            source == (FileSource { path, query, fragment }),
    {
        FileSource { path, query, fragment }
    }

    /// What identifies the source.
    pub fn ident(&self) -> (ident: AssetIdent)
        ensures
            ident == (AssetIdent {
                path: self.path,
                query: self.query,
                fragment: self.fragment,
            }),
    {
        AssetIdent {
            path: self.path.duplicate(),
            query: self.query.clone(),
            fragment: self.fragment.clone(),
        }
    }

    /// What the source is, for people.
    pub fn description(&self) -> (text: String)
        ensures
            text@ == "file content of "@ + self.path.shown@,
    {
        "file content of ".to_owned().concat(self.path.shown.as_str())
    }

    /// What comes next in reading the content of the source: at the start there is no `reply`, then
    /// it is the answer to what was asked for last.
    ///
    /// A lazy source that is not revealed is empty: its bytes are not even asked for, so nothing
    /// downstream has anything to build. Once it is revealed its bytes flow through as they are.
    pub fn content(&self, reply: Option<ContentReply>, session: &Session) -> (step: ContentStep)
        ensures
            step@ == next_step(source_deferred(self.path.path@, session@), reply),
            reply matches Some(ContentReply::Link(LinkContent::Link { target, link_type })) ==> (
            step matches ContentStep::Done(Ok(AssetContent::Redirect { target: to, link_type: kind }))
                && to == target && kind == link_type),
            reply matches Some(ContentReply::File(content)) ==> (step matches ContentStep::Done(
                Ok(AssetContent::File(same)),
            ) && same == content),
            reply matches Some(ContentReply::Type(FileSystemEntryType::File)) ==> (
            if lazy_path(self.path.path@) && !session@.contains(self.path.path@) {
                step matches ContentStep::Done(Ok(AssetContent::File(FileContent::Content(bytes))))
                    && bytes@.len() == 0
            } else {
                step == ContentStep::Ask(ContentRequest::Read)
            }),
            reply matches Some(ContentReply::Type(FileSystemEntryType::NotFound))
                ==> step == ContentStep::Done(Ok(AssetContent::File(FileContent::NotFound))),
    {
        match reply {
            None => ContentStep::Ask(ContentRequest::GetType),
            Some(ContentReply::Type(kind)) => match kind {
                FileSystemEntryType::Symlink => ContentStep::Ask(ContentRequest::ReadLink),
                FileSystemEntryType::File => {
                    if is_lazy_path(self.path.path.as_str())
                        && !session.registry().is_revealed(&self.path.path) {
                        let empty: Vec<u8> = Vec::new();
                        assert(empty@ =~= seq![]);
                        return ContentStep::Done(
                            Ok(AssetContent::File(FileContent::Content(empty))),
                        );
                    }
                    ContentStep::Ask(ContentRequest::Read)
                },
                FileSystemEntryType::NotFound => ContentStep::Done(
                    Ok(AssetContent::File(FileContent::NotFound)),
                ),
                _ => ContentStep::Done(Err(SourceError::InvalidFileType(kind))),
            },
            Some(ContentReply::Link(LinkContent::Link { target, link_type })) => ContentStep::Done(
                Ok(AssetContent::Redirect { target, link_type }),
            ),
            Some(ContentReply::Link(_)) => ContentStep::Done(Err(SourceError::InvalidSymlink)),
            Some(ContentReply::File(content)) => ContentStep::Done(Ok(AssetContent::File(content))),
        }
    }
}

/// What a file system has at the path of a source.
pub struct Entry {
    pub kind: FileSystemEntryType,
    pub link: LinkContent,
    pub file: FileContent,
}

/// What a file system replies to a question.
pub open spec fn replied(entry: Entry, request: ContentRequest) -> ContentReply {
    match request {
        ContentRequest::GetType => ContentReply::Type(entry.kind),
        ContentRequest::ReadLink => ContentReply::Link(entry.link),
        ContentRequest::Read => ContentReply::File(entry.file),
    }
}

/// What is asked, and what comes out, when the content of a source is read to the end, for at most
/// `fuel` questions more. `None` comes out if they are not enough.
pub open spec fn conversation(
    deferred: bool,
    entry: Entry,
    reply: Option<ContentReply>,
    fuel: nat,
) -> (Seq<ContentRequest>, Option<Result<AssetModel, SourceError>>)
    decreases fuel,
{
    match next_step(deferred, reply) {
        StepModel::Done(result) => (seq![], Some(result)),
        StepModel::Ask(request) => if fuel == 0 {
            (seq![], None)
        } else {
            let rest = conversation(
                deferred,
                entry,
                Some(replied(entry, request)),
                (fuel - 1) as nat,
            );
            (seq![request] + rest.0, rest.1)
        },
    }
}

/// What reading a source comes to: what is asked, in order, and the result.
pub open spec fn reading(deferred: bool, entry: Entry) -> (
    Seq<ContentRequest>,
    Result<AssetModel, SourceError>,
) {
    match entry.kind {
        FileSystemEntryType::Symlink => (
            seq![ContentRequest::GetType, ContentRequest::ReadLink],
            match entry.link {
                LinkContent::Link { target, link_type } => Ok(
                    AssetModel::Redirect { target: target@, link_type },
                ),
                _ => Err(SourceError::InvalidSymlink),
            },
        ),
        FileSystemEntryType::File => if deferred {
            (seq![ContentRequest::GetType], Ok(AssetModel::File(Some(seq![]))))
        } else {
            (
                seq![ContentRequest::GetType, ContentRequest::Read],
                Ok(AssetModel::File(entry.file@)),
            )
        },
        FileSystemEntryType::NotFound => (
            seq![ContentRequest::GetType],
            Ok(AssetModel::File(None)),
        ),
        _ => (
            seq![ContentRequest::GetType],
            Err(SourceError::InvalidFileType(entry.kind)),
        ),
    }
}

/// Reading a source takes two questions at most, and comes to what [`reading`] says.
pub proof fn law_reading_ends(deferred: bool, entry: Entry, fuel: nat)
    requires
        fuel >= 2,
    ensures
        conversation(deferred, entry, None, fuel) == (
            reading(deferred, entry).0,
            Some(reading(deferred, entry).1),
        ),
{
    reveal_with_fuel(conversation, 4);
    assert(conversation(deferred, entry, None, fuel).0 =~= reading(deferred, entry).0);
}

/// A lazy source that is not revealed is empty, and its bytes are never read.
pub proof fn law_unrevealed_source_is_not_read(
    p: Seq<char>,
    revealed: Set<Seq<char>>,
    entry: Entry,
)
    requires
        lazy_path(p),
        !revealed.contains(p),
    ensures
        !reading(source_deferred(p, revealed), entry).0.contains(ContentRequest::Read),
        entry.kind == FileSystemEntryType::File ==> reading(
            source_deferred(p, revealed),
            entry,
        ).1 == Ok::<AssetModel, SourceError>(AssetModel::File(Some(seq![]))),
{
}

/// Once a source is revealed, whatever its file holds flows through as it is, however often it is
/// edited; and so it is of a source that is not lazy, revealed or not.
pub proof fn law_revealed_source_is_what_its_file_holds(
    p: Seq<char>,
    revealed: Set<Seq<char>>,
    entry: Entry,
)
    requires
        lazy_path(p) ==> revealed.contains(p),
        entry.kind == FileSystemEntryType::File,
    ensures
        reading(source_deferred(p, revealed), entry).1 == Ok::<AssetModel, SourceError>(
            AssetModel::File(entry.file@),
        ),
{
}

/// What stands at a path and is no file is read alike whether or not the path is revealed.
pub proof fn law_reveal_matters_to_files_only(
    p: Seq<char>,
    revealed: Set<Seq<char>>,
    entry: Entry,
)
    requires
        entry.kind != FileSystemEntryType::File,
    ensures
        reading(source_deferred(p, revealed), entry) == reading(
            source_deferred(p, revealed.insert(p)),
            entry,
        ),
{
}

/// A symbolic link is a redirect to exactly the target text that the link holds, with exactly its link
/// type, whether or not the source is lazy or revealed; and its file is never read.
pub proof fn law_symlink_is_handed_on(
    p: Seq<char>,
    revealed: Set<Seq<char>>,
    entry: Entry,
    target: String,
    link_type: LinkType,
    fuel: nat,
)
    requires
        entry.kind == FileSystemEntryType::Symlink,
        entry.link == (LinkContent::Link { target, link_type }),
        fuel >= 2,
    ensures
        conversation(source_deferred(p, revealed), entry, None, fuel).1 == Some(
            Ok::<AssetModel, SourceError>(AssetModel::Redirect { target: target@, link_type }),
        ),
        conversation(source_deferred(p, revealed), entry, None, fuel).0 == seq![
            ContentRequest::GetType,
            ContentRequest::ReadLink,
        ],
{
    law_reading_ends(source_deferred(p, revealed), entry, fuel);
}

/// Two links that differ are two redirects that differ.
pub proof fn law_redirects_tell_links_apart(
    deferred: bool,
    target1: String,
    type1: LinkType,
    target2: String,
    type2: LinkType,
)
    requires
        next_step(
            deferred,
            Some(ContentReply::Link(LinkContent::Link { target: target1, link_type: type1 })),
        ) == next_step(
            deferred,
            Some(ContentReply::Link(LinkContent::Link { target: target2, link_type: type2 })),
        ),
    ensures
        target1@ == target2@,
        type1 == type2,
{
}

/// A link that cannot be followed is an error, and so is whatever is neither a file nor a link; the
/// error says which type it was.
pub proof fn law_what_cannot_be_read_is_an_error(deferred: bool, entry: Entry, fuel: nat)
    requires
        fuel >= 2,
    ensures
        entry.kind == FileSystemEntryType::Symlink && (entry.link is Invalid || entry.link is NotFound)
            ==> conversation(deferred, entry, None, fuel).1 == Some(
            Err::<AssetModel, SourceError>(SourceError::InvalidSymlink),
        ),
        entry.kind == FileSystemEntryType::Directory || entry.kind == FileSystemEntryType::Other
            || entry.kind == FileSystemEntryType::Error ==> conversation(
            deferred,
            entry,
            None,
            fuel,
        ).1 == Some(Err::<AssetModel, SourceError>(SourceError::InvalidFileType(entry.kind))),
        entry.kind == FileSystemEntryType::NotFound ==> conversation(deferred, entry, None, fuel).1
            == Some(Ok::<AssetModel, SourceError>(AssetModel::File(None))),
{
    law_reading_ends(deferred, entry, fuel);
}

/// A file whose name is something, then `.lazy.`, then something, in any directory, reads as empty, and
/// without a read, as long as its path is not revealed, whatever else is; once its path is revealed, its
/// bytes flow through as they are.
pub proof fn law_lazy_file_is_empty_until_revealed(
    d: Seq<char>,
    a: Seq<char>,
    b: Seq<char>,
    revealed: Set<Seq<char>>,
    entry: Entry,
    fuel: nat,
)
    requires
        forall|i: int| 0 <= i < a.len() ==> a[i] != '/',
        forall|i: int| 0 <= i < b.len() ==> b[i] != '/',
        entry.kind == FileSystemEntryType::File,
        fuel >= 2,
    ensures
        ({
            let name = a + ".lazy."@ + b;
            let p = d + seq!['/'] + name;
            &&& !revealed.contains(p) ==> conversation(
                source_deferred(p, revealed),
                entry,
                None,
                fuel,
            ) == (
                seq![ContentRequest::GetType],
                Some(Ok::<AssetModel, SourceError>(AssetModel::File(Some(Seq::<u8>::empty())))),
            )
            &&& !revealed.contains(name) ==> conversation(
                source_deferred(name, revealed),
                entry,
                None,
                fuel,
            ) == (
                seq![ContentRequest::GetType],
                Some(Ok::<AssetModel, SourceError>(AssetModel::File(Some(Seq::<u8>::empty())))),
            )
            &&& conversation(source_deferred(p, revealed.insert(p)), entry, None, fuel) == (
                seq![ContentRequest::GetType, ContentRequest::Read],
                Some(Ok::<AssetModel, SourceError>(AssetModel::File(entry.file@))),
            )
        }),
{
    let name = a + ".lazy."@ + b;
    let p = d + seq!['/'] + name;
    law_lazy_in_the_name(d, a, b);
    law_reading_ends(source_deferred(p, revealed), entry, fuel);
    law_reading_ends(source_deferred(name, revealed), entry, fuel);
    law_reading_ends(source_deferred(p, revealed.insert(p)), entry, fuel);
}

/// Any other file holds what it holds, revealed or not: its bytes are asked for once, and flow through
/// as they are.
pub proof fn law_ordinary_file_is_what_it_holds(
    d: Seq<char>,
    n: Seq<char>,
    revealed: Set<Seq<char>>,
    entry: Entry,
    fuel: nat,
)
    requires
        forall|i: int| 0 <= i < n.len() ==> n[i] != '/',
        forall|a: Seq<char>, b: Seq<char>|
            n != #[trigger] (a + ".lazy."@ + b),
        entry.kind == FileSystemEntryType::File,
        fuel >= 2,
    ensures
        conversation(source_deferred(d + seq!['/'] + n, revealed), entry, None, fuel) == (
            seq![ContentRequest::GetType, ContentRequest::Read],
            Some(Ok::<AssetModel, SourceError>(AssetModel::File(entry.file@))),
        ),
        conversation(source_deferred(n, revealed), entry, None, fuel) == (
            seq![ContentRequest::GetType, ContentRequest::Read],
            Some(Ok::<AssetModel, SourceError>(AssetModel::File(entry.file@))),
        ),
{
    law_lazy_paths_by_name(d, n);
    law_reading_ends(source_deferred(d + seq!['/'] + n, revealed), entry, fuel);
    law_reading_ends(source_deferred(n, revealed), entry, fuel);
}

/// What an error says.
pub proof fn law_errors_say_what_they_are(kind: FileSystemEntryType)
    ensures
        SourceError::InvalidSymlink.spec_message() == "Invalid symlink"@,
        SourceError::InvalidFileType(kind).spec_message() == "Invalid file type "@ + match kind {
            FileSystemEntryType::NotFound => "NotFound"@,
            FileSystemEntryType::File => "File"@,
            FileSystemEntryType::Directory => "Directory"@,
            FileSystemEntryType::Symlink => "Symlink"@,
            FileSystemEntryType::Other => "Other"@,
            FileSystemEntryType::Error => "Error"@,
        },
{
}

/// What an asset holds, and what a step is, is told by the values themselves.
pub proof fn law_assets_are_told_by_their_values(
    content: FileContent,
    target: String,
    link_type: LinkType,
    request: ContentRequest,
    asset: AssetContent,
    error: SourceError,
)
    ensures
        AssetContent::File(content)@ == AssetModel::File(content@),
        (AssetContent::Redirect { target, link_type })@ == (AssetModel::Redirect {
            target: target@,
            link_type,
        }),
        ContentStep::Ask(request)@ == StepModel::Ask(request),
        ContentStep::Done(Ok(asset))@ == StepModel::Done(Ok(asset@)),
        ContentStep::Done(Err(error))@ == StepModel::Done(Err(error)),
{
}

/// The file system answers the question that was asked.
pub proof fn law_replies_answer_the_question(entry: Entry)
    ensures
        replied(entry, ContentRequest::GetType) == ContentReply::Type(entry.kind),
        replied(entry, ContentRequest::ReadLink) == ContentReply::Link(entry.link),
        replied(entry, ContentRequest::Read) == ContentReply::File(entry.file),
{
}

} // verus!
