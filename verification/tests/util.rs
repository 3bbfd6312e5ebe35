use darkstone::util::IoErrorKind;
use darkstone::util::Query;

#[test]
fn query_starts_pending() {
    let query: Query<u32, IoErrorKind> = Query::new();
    assert!(query.is_pending());
    assert!(!query.is_loaded());
    assert!(!query.is_error());
    assert!(query.loaded().is_none());
    assert!(query.error().is_none());
}

#[test]
fn pending_query_settles_once() {
    let mut query: Query<u32, IoErrorKind> = Query::new();
    assert!(query.settle(Ok(7)).is_none());
    assert!(query.is_loaded());
    assert_eq!(query.loaded(), Some(&7));
    let rejected = query.settle(Ok(8));
    assert!(matches!(rejected, Some(Ok(8))));
    assert_eq!(query.loaded(), Some(&7));
    let rejected = query.settle(Err(IoErrorKind::NotFound));
    assert!(matches!(rejected, Some(Err(IoErrorKind::NotFound))));
    assert_eq!(query.loaded(), Some(&7));
}

#[test]
fn failed_query_stays_failed_until_reset() {
    let mut query: Query<u32, IoErrorKind> = Query::new();
    assert!(query.settle(Err(IoErrorKind::PermissionDenied)).is_none());
    assert!(query.is_error());
    assert_eq!(query.error(), Some(&IoErrorKind::PermissionDenied));
    assert!(query.settle(Ok(1)).is_some());
    assert!(query.is_error());
    query.reset();
    assert!(query.is_pending());
    assert!(query.settle(Ok(1)).is_none());
    assert_eq!(query.loaded(), Some(&1));
}

#[test]
fn map_reaches_the_loaded_value_only() {
    let loaded: Query<u32, IoErrorKind> = Query::Loaded(20);
    assert!(matches!(loaded.map(|n| n + 1), Query::Loaded(21)));
    let pending: Query<u32, IoErrorKind> = Query::Pending;
    let mut called = false;
    let mapped = pending.map(|n| {
        called = true;
        n + 1
    });
    assert!(matches!(mapped, Query::Pending));
    let failed: Query<u32, IoErrorKind> = Query::Error(IoErrorKind::Other);
    let mapped = failed.map(|n| {
        called = true;
        n + 1
    });
    assert!(matches!(mapped, Query::Error(IoErrorKind::Other)));
    assert!(!called);
}

#[test]
fn fallback_view_shows_only_without_a_value() {
    let loaded: Query<&str, IoErrorKind> = Query::Loaded("text");
    assert_eq!(loaded.unwrap_or_default_view("Loading..."), "text");
    let pending: Query<&str, IoErrorKind> = Query::Pending;
    assert_eq!(pending.unwrap_or_default_view("Loading..."), "Loading...");
    let failed: Query<&str, IoErrorKind> = Query::Error(IoErrorKind::NotFound);
    assert_eq!(failed.unwrap_or_default_view("Loading..."), "Loading...");
}

#[test]
fn error_kinds_have_names() {
    assert_eq!(IoErrorKind::NotFound.name(), "NotFound");
    assert_eq!(IoErrorKind::PermissionDenied.name(), "PermissionDenied");
    assert_eq!(IoErrorKind::Other.name(), "Other");
}
