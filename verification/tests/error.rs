use scrape_batch::error::ErrorKind;

const ALL: [ErrorKind; 8] = [
    ErrorKind::ExecutableNotFound,
    ErrorKind::SpawnError,
    ErrorKind::SessionBuildError,
    ErrorKind::NavigationError,
    ErrorKind::QueryError,
    ErrorKind::ElementReadError,
    ErrorKind::QuitError,
    ErrorKind::TerminationError,
];

#[test]
fn error_names() {
    let names: Vec<&str> = ALL.iter().map(|kind| kind.name()).collect();
    assert_eq!(
        names,
        vec![
            "ExecutableNotFound",
            "SpawnError",
            "SessionBuildError",
            "NavigationError",
            "QueryError",
            "ElementReadError",
            "QuitError",
            "TerminationError",
        ]
    );
}
