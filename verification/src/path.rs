//! Paths on a file system, and what is read through them.
use vstd::prelude::*;

verus! {

/// A path on a file system: `/`-separated and normalized, relative to the file system's root.
#[derive(Debug)]
pub struct FileSystemPath {
    /// The path itself. It is what a file is known by.
    pub path: String,
    /// The path as its file system shows it to people.
    pub shown: String,
}

impl FileSystemPath {
    /// A path equal to this one.
    pub fn duplicate(&self) -> (copy: Self)
        ensures
            copy == *self,
    {
        FileSystemPath { path: self.path.clone(), shown: self.shown.clone() }
    }
}

/// What stands at a path.
#[derive(Clone, Copy, PartialEq, Eq, Debug, Structural)]
pub enum FileSystemEntryType {
    NotFound,
    File,
    Directory,
    Symlink,
    Other,
    Error,
}

impl FileSystemEntryType {
    /// The name of the type.
    pub open spec fn spec_name(self) -> Seq<char> {
        match self {
            FileSystemEntryType::NotFound => "NotFound"@,
            FileSystemEntryType::File => "File"@,
            FileSystemEntryType::Directory => "Directory"@,
            FileSystemEntryType::Symlink => "Symlink"@,
            FileSystemEntryType::Other => "Other"@,
            FileSystemEntryType::Error => "Error"@,
        }
    }

    /// The name of the type.
    pub fn name(&self) -> (name: &'static str)
        ensures
            name@ == self.spec_name(),
    {
        match self {
            FileSystemEntryType::NotFound => "NotFound",
            FileSystemEntryType::File => "File",
            FileSystemEntryType::Directory => "Directory",
            FileSystemEntryType::Symlink => "Symlink",
            FileSystemEntryType::Other => "Other",
            FileSystemEntryType::Error => "Error",
        }
    }
}

/// What kind of link a symbolic link is, as flags that are handed on as they are.
#[derive(Clone, Copy, PartialEq, Eq, Debug, Structural)]
pub struct LinkType {
    pub bits: u8,
}

/// What a symbolic link holds.
#[derive(Debug)]
pub enum LinkContent {
    Link { target: String, link_type: LinkType },
    /// The link leads out of the file system.
    Invalid,
    NotFound,
}

/// What a file holds.
#[derive(Debug)]
pub enum FileContent {
    Content(Vec<u8>),
    NotFound,
}

impl View for FileContent {
    type V = Option<Seq<u8>>;

    open spec fn view(&self) -> Option<Seq<u8>> {
        match *self {
            FileContent::Content(bytes) => Some(bytes@),
            FileContent::NotFound => None,
        }
    }
}

/// Where the last component of a path starts.
pub open spec fn name_start(p: Seq<char>) -> int
    decreases p.len(),
{
    if p.len() == 0 || p.last() == '/' {
        p.len() as int
    } else {
        name_start(p.drop_last())
    }
}

/// The last component of a path.
pub open spec fn file_name(p: Seq<char>) -> Seq<char> {
    p.skip(name_start(p))
}

/// The path without its last component. The root's parent is the root.
pub open spec fn parent(p: Seq<char>) -> Seq<char> {
    if name_start(p) == 0 {
        seq![]
    } else {
        p.take(name_start(p) - 1)
    }
}

/// The path of `name` in the directory `dir`.
pub open spec fn joined_path(dir: Seq<char>, name: Seq<char>) -> Seq<char> {
    if dir.len() == 0 {
        name
    } else {
        dir + "/"@ + name
    }
}

/// Whether `part` stands in `text` at `at`.
pub open spec fn stands_at(text: Seq<char>, part: Seq<char>, at: int) -> bool {
    0 <= at <= text.len() - part.len() && text.subrange(at, at + part.len()) == part
}

/// Whether `part` stands somewhere in `text`.
pub open spec fn has_part(text: Seq<char>, part: Seq<char>) -> bool {
    exists|at: int| stands_at(text, part, at)
}

/// A last component starts within its path, behind a `/` or at the start, and has no `/` in it.
pub proof fn lemma_name_start(p: Seq<char>)
    ensures
        0 <= name_start(p) <= p.len(),
        name_start(p) > 0 ==> p[name_start(p) - 1] == '/',
        forall|i: int| name_start(p) <= i < p.len() ==> p[i] != '/',
    decreases p.len(),
{
    if p.len() > 0 && p.last() != '/' {
        let front = p.drop_last();
        lemma_name_start(front);
        assert forall|i: int| name_start(p) <= i < p.len() implies p[i] != '/' by {
            if i < front.len() {
                assert(front[i] == p[i]);
            }
        }
    }
}

/// The characters of a text.
fn characters(text: &str) -> (chars: Vec<char>)
    ensures
        chars@ == text@,
{
    let mut chars: Vec<char> = Vec::new();
    for c in iter: text.chars()
        invariant
            chars@.len() == iter.index(),
            forall|i: int| 0 <= i < chars@.len() ==> chars@[i] == iter.seq()[i],
            iter.seq() == text@,
    {
        chars.push(c);
    }
    assert(chars@ =~= text@);
    chars
}

/// Where the last component of a path starts.
fn find_name_start(chars: &Vec<char>) -> (at: usize)
    ensures
        at == name_start(chars@),
{
    let mut i: usize = chars.len();
    assert(chars@.take(i as int) =~= chars@);
    while i > 0
        invariant
            i <= chars@.len(),
            name_start(chars@) == name_start(chars@.take(i as int)),
        decreases i,
    {
        if chars[i - 1] == '/' {
            return i;
        }
        assert(chars@.take(i as int).drop_last() =~= chars@.take(i - 1));
        i = i - 1;
    }
    0
}

/// Whether `part` stands in `text` at `at`.
fn matches_at(text: &Vec<char>, part: &Vec<char>, at: usize) -> (b: bool)
    requires
        at + part@.len() <= text.len(),
    ensures
        b == stands_at(text@, part@, at as int),
{
    let mut i: usize = 0;
    while i < part.len()
        invariant
            i <= part@.len(),
            at + part@.len() <= text.len(),
            forall|j: int| 0 <= j < i ==> text@[at + j] == part@[j],
        decreases part@.len() - i,
    {
        if text[at + i] != part[i] {
            assert(text@.subrange(at as int, at + part@.len())[i as int] != part@[i as int]);
            return false;
        }
        i = i + 1;
    }
    assert(text@.subrange(at as int, at + part@.len()) =~= part@);
    true
}

/// Whether the last component of `path` has `part` in it.
pub fn name_has_part(path: &str, part: &str) -> (b: bool)
    ensures
        b == has_part(file_name(path@), part@),
{
    let text = characters(path);
    let wanted = characters(part);
    let start = find_name_start(&text);
    let ghost name = file_name(path@);
    proof {
        lemma_name_start(path@);
    }
    let mut at: usize = start;
    while wanted.len() <= text.len() - at
        invariant
            start <= at <= text.len(),
            text@ == path@,
            wanted@ == part@,
            start == name_start(path@),
            name == file_name(path@),
            forall|i: int| 0 <= i < at - start ==> !stands_at(name, part@, i),
        decreases text@.len() - at,
    {
        let here = matches_at(&text, &wanted, at);
        proof {
            let i = at - start;
            assert(name.subrange(i, i + part@.len()) =~= text@.subrange(
                at as int,
                at + part@.len(),
            ));
            assert(here == stands_at(name, part@, i));
            if part@.len() == 0 {
                assert(name.subrange(i, i) =~= part@);
            }
        }
        if here {
            return true;
        }
        at = at + 1;
    }
    false
}

/// The path next to `path` whose last component is that of `path` with `suffix` behind it.
pub fn sibling(path: &str, suffix: &str) -> (p: String)
    ensures
        p@ == joined_path(parent(path@), file_name(path@) + suffix@),
{
    let chars = characters(path);
    let start = find_name_start(&chars);
    proof {
        lemma_name_start(path@);
    }
    let name = path.substring_char(start, chars.len());
    assert(name@ =~= file_name(path@));
    if start <= 1 {
        assert(parent(path@) =~= seq![]);
        return name.to_owned().concat(suffix);
    }
    let dir = path.substring_char(0, start - 1);
    assert(dir@ =~= parent(path@));
    let mut p = dir.to_owned();
    p.append("/");
    p.append(name);
    p.append(suffix);
    proof {
        assert(p@ =~= dir@ + "/"@ + (name@ + suffix@));
    }
    p
}

/// A path with a suffix is the path next to it, unless the path starts with a `/`.
pub proof fn lemma_sibling_appends(p: Seq<char>, suffix: Seq<char>)
    requires
        p.len() > 0 ==> p[0] != '/',
    ensures
        joined_path(parent(p), file_name(p) + suffix) == p + suffix,
{
    lemma_name_start(p);
    reveal_strlit("/");
    let k = name_start(p);
    if k == 0 {
        assert(file_name(p) + suffix =~= p + suffix);
    } else {
        assert(k > 1);
        assert(parent(p) + "/"@ + (file_name(p) + suffix) =~= p + suffix);
    }
}

/// A text without a `/` does not move the start of a last component.
proof fn lemma_name_goes_on(x: Seq<char>, n: Seq<char>)
    requires
        forall|i: int| 0 <= i < n.len() ==> n[i] != '/',
        x.len() == 0 || x.last() == '/',
    ensures
        name_start(x + n) == x.len(),
    decreases n.len(),
{
    if n.len() == 0 {
        assert(x + n =~= x);
    } else {
        assert((x + n).last() == n.last());
        assert((x + n).drop_last() =~= x + n.drop_last());
        lemma_name_goes_on(x, n.drop_last());
    }
}

/// A path is taken apart as it is put together: whatever the directory `d` and the name `n`, which has
/// no `/` in it, the path `d/n` has the name `n` and the parent `d`, and joining the two gives it back.
/// Without a directory the name is the path.
pub proof fn law_path_is_directory_and_name(d: Seq<char>, n: Seq<char>)
    requires
        forall|i: int| 0 <= i < n.len() ==> n[i] != '/',
    ensures
        file_name(d + seq!['/'] + n) == n,
        parent(d + seq!['/'] + n) == d,
        file_name(n) == n,
        parent(n) == Seq::<char>::empty(),
        d.len() > 0 ==> joined_path(d, n) == d + seq!['/'] + n,
        joined_path(Seq::empty(), n) == n,
{
    reveal_strlit("/");
    let x = d + seq!['/'];
    lemma_name_goes_on(x, n);
    lemma_name_goes_on(Seq::empty(), n);
    assert(Seq::<char>::empty() + n =~= n);
    assert(file_name(x + n) =~= n);
    assert(parent(x + n) =~= d);
    assert(file_name(n) =~= n);
    assert("/"@ =~= seq!['/']);
}

/// A part stands in a text wherever something stands before it and something behind it, and nowhere
/// else.
pub proof fn law_part_stands_between(text: Seq<char>, part: Seq<char>)
    ensures
        has_part(text, part) <==> exists|a: Seq<char>, b: Seq<char>| text == #[trigger] (a + part + b),
        forall|a: Seq<char>, b: Seq<char>| has_part(#[trigger] (a + part + b), part),
{
    assert forall|a: Seq<char>, b: Seq<char>| has_part(#[trigger] (a + part + b), part) by {
        let whole = a + part + b;
        assert(whole.subrange(a.len() as int, (a.len() + part.len()) as int) =~= part);
        assert(stands_at(whole, part, a.len() as int));
    }
    if has_part(text, part) {
        let at = choose|at: int| stands_at(text, part, at);
        let a = text.take(at);
        let b = text.skip(at + part.len());
        assert(text =~= a + part + b);
    }
}

/// Each type of entry has its own name.
pub proof fn law_entry_types_by_name()
    ensures
        FileSystemEntryType::NotFound.spec_name() == "NotFound"@,
        FileSystemEntryType::File.spec_name() == "File"@,
        FileSystemEntryType::Directory.spec_name() == "Directory"@,
        FileSystemEntryType::Symlink.spec_name() == "Symlink"@,
        FileSystemEntryType::Other.spec_name() == "Other"@,
        FileSystemEntryType::Error.spec_name() == "Error"@,
        forall|a: FileSystemEntryType, b: FileSystemEntryType|
            (#[trigger] a.spec_name()) == (#[trigger] b.spec_name()) ==> a == b,
{
    reveal_strlit("NotFound");
    reveal_strlit("File");
    reveal_strlit("Directory");
    reveal_strlit("Symlink");
    reveal_strlit("Other");
    reveal_strlit("Error");
    assert forall|a: FileSystemEntryType, b: FileSystemEntryType|
        (#[trigger] a.spec_name()) == (#[trigger] b.spec_name()) implies a == b by {
        assert(a.spec_name()[0] == b.spec_name()[0]);
        assert(a.spec_name().len() == b.spec_name().len());
    }
}

/// A file that is there holds its bytes, whatever they are, and one that is not there holds nothing.
pub proof fn law_file_holds_its_bytes(bytes: Vec<u8>)
    ensures
        FileContent::Content(bytes)@ == Some(bytes@),
        FileContent::NotFound@ is None,
{
}

} // verus!
