use docsail::workspace::{classify, inspection_error, InspectionFailure, PathKind, WorkspaceError, WorkspaceTarget};

#[test]
fn classifies_files_and_directories_by_their_canonical_path() {
    assert_eq!(
        classify("docs/a.md".to_owned(), PathKind::File, Ok("/w/docs/a.md".to_owned())),
        Ok(WorkspaceTarget::File("/w/docs/a.md".to_owned()))
    );
    assert_eq!(
        classify("docs".to_owned(), PathKind::Directory, Ok("/w/docs".to_owned())),
        Ok(WorkspaceTarget::Directory("/w/docs".to_owned()))
    );
    assert_eq!(
        classify("fifo".to_owned(), PathKind::Other, Ok("/w/fifo".to_owned())),
        Err(WorkspaceError::Unsupported("/w/fifo".to_owned()))
    );
    assert_eq!(
        classify("x".to_owned(), PathKind::File, Err("denied".to_owned())),
        Err(WorkspaceError::Io { path: "x".to_owned(), message: "denied".to_owned() })
    );
}

#[test]
fn reports_missing_and_unreadable_paths() {
    let missing = inspection_error("/w/missing.md".to_owned(), InspectionFailure::Missing);
    assert_eq!(missing, WorkspaceError::NotFound("/w/missing.md".to_owned()));
    assert_eq!(missing.message(), "path does not exist: /w/missing.md");
    let failed = inspection_error("/w/x".to_owned(), InspectionFailure::Failed("denied".to_owned()));
    assert_eq!(failed.message(), "could not inspect /w/x: denied");
    assert_eq!(
        WorkspaceError::Unsupported("/dev/null".to_owned()).message(),
        "path is neither a regular file nor a directory: /dev/null"
    );
}

#[test]
fn gives_the_path_of_either_target() {
    assert_eq!(WorkspaceTarget::File("a.md".to_owned()).path(), "a.md");
    assert_eq!(WorkspaceTarget::Directory("docs".to_owned()).path(), "docs");
}
