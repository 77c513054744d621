use turbo_gc::file_source::{
    AssetContent, ContentReply, ContentRequest, ContentStep, FileSource, SourceError,
};
use turbo_gc::lazy_reveal::{
    is_lazy_path, is_module_deferred, reveal_marker, reveal_path, LazyRevealRegistry, Session,
};
use turbo_gc::path::{FileContent, FileSystemEntryType, FileSystemPath, LinkContent, LinkType};

fn at(path: &str) -> FileSystemPath {
    FileSystemPath {
        path: path.to_string(),
        shown: format!("[test]/{path}"),
    }
}

/// Reads `source` where the file system has `kind`, and `bytes` if it is a file. Also says how often
/// the file system was asked for the bytes.
fn read(
    source: &FileSource,
    session: &Session,
    kind: FileSystemEntryType,
    bytes: &[u8],
) -> (Result<AssetContent, SourceError>, usize) {
    let mut reply = None;
    let mut reads = 0;
    loop {
        match source.content(reply, session) {
            ContentStep::Done(result) => return (result, reads),
            ContentStep::Ask(ContentRequest::GetType) => reply = Some(ContentReply::Type(kind)),
            ContentStep::Ask(ContentRequest::Read) => {
                reads += 1;
                reply = Some(ContentReply::File(FileContent::Content(bytes.to_vec())));
            }
            ContentStep::Ask(ContentRequest::ReadLink) => {
                reply = Some(ContentReply::Link(LinkContent::Invalid));
            }
        }
    }
}

fn content_len(source: &FileSource, session: &Session, bytes: &[u8]) -> usize {
    match read(source, session, FileSystemEntryType::File, bytes).0 {
        Ok(AssetContent::File(FileContent::Content(content))) => content.len(),
        _ => 0,
    }
}

#[test]
fn lazy_source_reveal_and_edit_tracking() {
    let real = b"export const X = 'REAL_BYTES_HERE';\n";
    let edited =
        b"export const X = 'REAL_BYTES_HERE';\nexport const Y = 'MORE_BYTES_ADDED_BY_EDIT';\n";
    let source = FileSource::new(at("foo.lazy.js"));
    let mut session = Session::start();

    let before = content_len(&source, &session, real);
    assert!(reveal_path(&mut session, "foo.lazy.js".to_string()));
    let after = content_len(&source, &session, real);
    let after_edit = content_len(&source, &session, edited);

    assert_eq!(before, 0);
    assert!(after > 0);
    assert_eq!(after, real.len());
    assert!(after_edit > after);
    assert_eq!(after_edit, edited.len());
}

#[test]
fn unrevealed_source_is_empty_without_a_read() {
    let session = Session::start();
    let lazy = FileSource::new(at("src/foo.lazy.js"));
    let (content, reads) = read(&lazy, &session, FileSystemEntryType::File, b"real");
    assert!(matches!(
        content,
        Ok(AssetContent::File(FileContent::Content(bytes))) if bytes.is_empty()
    ));
    assert_eq!(reads, 0);

    let ordinary = FileSource::new(at("src/foo.js"));
    let (content, reads) = read(&ordinary, &session, FileSystemEntryType::File, b"real");
    assert!(matches!(
        content,
        Ok(AssetContent::File(FileContent::Content(bytes))) if bytes == b"real"
    ));
    assert_eq!(reads, 1);
}

#[test]
fn missing_file_is_not_found() {
    let session = Session::start();
    for path in ["foo.lazy.js", "foo.js"] {
        let source = FileSource::new(at(path));
        let (content, reads) = read(&source, &session, FileSystemEntryType::NotFound, b"");
        assert!(matches!(content, Ok(AssetContent::File(FileContent::NotFound))));
        assert_eq!(reads, 0);
    }
}

#[test]
fn file_that_goes_between_two_questions_is_not_found() {
    let session = Session::start();
    let source = FileSource::new(at("foo.js"));
    let step = source.content(Some(ContentReply::File(FileContent::NotFound)), &session);
    assert!(matches!(
        step,
        ContentStep::Done(Ok(AssetContent::File(FileContent::NotFound)))
    ));
}

#[test]
fn symlink_is_a_redirect() {
    let session = Session::start();
    let source = FileSource::new(at("foo.lazy.js"));
    let step = source.content(
        Some(ContentReply::Type(FileSystemEntryType::Symlink)),
        &session,
    );
    assert!(matches!(step, ContentStep::Ask(ContentRequest::ReadLink)));
    let link = LinkContent::Link {
        target: "bar.js".to_string(),
        link_type: LinkType { bits: 2 },
    };
    match source.content(Some(ContentReply::Link(link)), &session) {
        ContentStep::Done(Ok(AssetContent::Redirect { target, link_type })) => {
            assert_eq!(target, "bar.js");
            assert_eq!(link_type, LinkType { bits: 2 });
        }
        other => panic!("unexpected step {other:?}"),
    }
}

#[test]
fn broken_symlink_is_an_error() {
    let session = Session::start();
    let source = FileSource::new(at("foo.js"));
    for link in [LinkContent::Invalid, LinkContent::NotFound] {
        match source.content(Some(ContentReply::Link(link)), &session) {
            ContentStep::Done(Err(error)) => {
                assert_eq!(error, SourceError::InvalidSymlink);
                assert_eq!(error.message(), "Invalid symlink");
            }
            other => panic!("unexpected step {other:?}"),
        }
    }
}

#[test]
fn other_file_types_are_errors() {
    let session = Session::start();
    let source = FileSource::new(at("foo.js"));
    for (kind, message) in [
        (FileSystemEntryType::Directory, "Invalid file type Directory"),
        (FileSystemEntryType::Other, "Invalid file type Other"),
        (FileSystemEntryType::Error, "Invalid file type Error"),
    ] {
        let error = read(&source, &session, kind, b"").0.unwrap_err();
        assert_eq!(error, SourceError::InvalidFileType(kind));
        assert_eq!(error.message(), message);
        assert_eq!(error.message(), format!("Invalid file type {kind:?}"));
    }
    for kind in [
        FileSystemEntryType::NotFound,
        FileSystemEntryType::File,
        FileSystemEntryType::Symlink,
    ] {
        assert_eq!(kind.name(), format!("{kind:?}"));
    }
}

#[test]
fn source_is_identified_by_path_query_and_fragment() {
    let ident = FileSource::new(at("a.js")).ident();
    assert_eq!((ident.path.path.as_str(), ident.query.as_str()), ("a.js", ""));
    assert_eq!(ident.fragment, "");
    let ident = FileSource::new_with_query(at("a.js"), "?x".to_string()).ident();
    assert_eq!((ident.query.as_str(), ident.fragment.as_str()), ("?x", ""));
    let source = FileSource::new_with_query_and_fragment(
        at("a.js"),
        "?x".to_string(),
        "#y".to_string(),
    );
    let ident = source.ident();
    assert_eq!((ident.query.as_str(), ident.fragment.as_str()), ("?x", "#y"));
    assert_eq!(ident.path.shown, "[test]/a.js");
    assert_eq!(source.description(), "file content of [test]/a.js");
}

#[test]
fn lazy_paths() {
    for path in ["foo.lazy.js", "src/foo.lazy.js", "a.lazy.b.lazy.c", ".lazy.", "a/.lazy.tsx", "ü/é.lazy.ts"] {
        assert!(is_lazy_path(path), "{path}");
    }
    for path in [
        "", "foo.js", "foo.lazy", "lazy.js", "foolazy.js", "foo.lazyjs", "a.lazy.d/foo.js",
        "foo.LAZY.js", "foo.lazy./", "foo.lazy/.js",
    ] {
        assert!(!is_lazy_path(path), "{path}");
    }
}

#[test]
fn registry_remembers_for_the_session() {
    let mut session = Session::start();
    let path = "src/a.js".to_string();
    assert!(!LazyRevealRegistry::get(&mut session).is_revealed(&path));
    assert!(LazyRevealRegistry::get(&mut session).reveal_path(path.clone()));
    assert!(LazyRevealRegistry::get(&mut session).is_revealed(&path));
    assert!(session.registry().is_revealed(&path));
    assert!(!session.registry().is_revealed(&"src/b.js".to_string()));
    assert!(!session.registry().is_revealed(&"a.js".to_string()));
    assert!(!LazyRevealRegistry::get(&mut session).reveal_path(path.clone()));
    assert!(reveal_path(&mut session, "src/b.js".to_string()));
    assert!(LazyRevealRegistry::get(&mut session).is_revealed(&"src/b.js".to_string()));
    assert!(LazyRevealRegistry::get(&mut session).is_revealed(&path));
    // Nothing of it reaches a new session.
    let mut next = Session::start();
    assert!(!LazyRevealRegistry::get(&mut next).is_revealed(&path));
    // Registries are equal whatever they hold.
    assert!(session.registry() == next.registry());
}

#[test]
fn revealing_one_source_leaves_the_others_deferred() {
    let mut session = Session::start();
    LazyRevealRegistry::get(&mut session).reveal_path("a.lazy.js".to_string());
    assert_eq!(content_len(&FileSource::new(at("a.lazy.js")), &session, b"1234"), 4);
    assert_eq!(content_len(&FileSource::new(at("b.lazy.js")), &session, b"1234"), 0);
    assert_eq!(content_len(&FileSource::new(at("x/a.lazy.js")), &session, b"1234"), 0);
}

#[test]
fn modules_are_deferred_until_revealed() {
    let mut session = Session::start();
    let path = at("src/page.js");
    assert!(is_module_deferred(&session, &path, &FileContent::NotFound));
    // The marker reveals it, whatever it holds.
    assert!(!is_module_deferred(&session, &path, &FileContent::Content(vec![])));
    assert!(!is_module_deferred(&session, &path, &FileContent::Content(vec![1])));
    // The registry reveals it, marker or not.
    reveal_path(&mut session, "src/page.js".to_string());
    assert!(!is_module_deferred(&session, &path, &FileContent::NotFound));
    assert!(!is_module_deferred(&session, &path, &FileContent::Content(vec![])));
    assert!(is_module_deferred(&session, &at("src/other.js"), &FileContent::NotFound));
}

#[test]
fn markers_stand_next_to_their_source() {
    assert_eq!(reveal_marker(&at("src/page.js")), "src/page.js.reveal");
    assert_eq!(reveal_marker(&at("page.js")), "page.js.reveal");
    assert_eq!(reveal_marker(&at("a/b/c d.tsx")), "a/b/c d.tsx.reveal");
    assert_eq!(reveal_marker(&at("ü/é.ts")), "ü/é.ts.reveal");
    assert_eq!(reveal_marker(&at("")), ".reveal");
}
