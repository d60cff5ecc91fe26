use mmterm::statusbar::{date_formats, resolve_parts, resolve_status_bar_right, LocalTime};

// 2023-11-14 22:13:20 UTC, read one hour east of UTC.
const NOW: LocalTime = LocalTime { secs: 1_700_000_000, nanos: 0, offset_secs: 3600 };

#[test]
fn resolve_status_bar_right_empty_segments_returns_none() {
    assert!(resolve_status_bar_right(&[], Some("/home/user"), &NOW).is_none());
}

#[test]
fn resolve_status_bar_right_pwd_present() {
    let segs = vec!["%pwd".to_string()];
    let result = resolve_status_bar_right(&segs, Some("~/projects"), &NOW);
    assert_eq!(result.as_deref(), Some("~/projects"));
}

#[test]
fn resolve_status_bar_right_pwd_absent_returns_none() {
    let segs = vec!["%pwd".to_string()];
    let result = resolve_status_bar_right(&segs, None, &NOW);
    assert!(result.is_none());
}

#[test]
fn resolve_status_bar_right_date_token() {
    let segs = vec!["%date{%Y}".to_string()];
    let result = resolve_status_bar_right(&segs, None, &NOW).unwrap();
    // Must be a 4-digit year.
    assert_eq!(result.len(), 4);
    assert!(result.chars().all(|c| c.is_ascii_digit()));
}

#[test]
fn resolve_status_bar_right_multiple_segments_joined() {
    let segs = vec!["%pwd".to_string(), "%date{%Y}".to_string()];
    let result = resolve_status_bar_right(&segs, Some("~/src"), &NOW).unwrap();
    assert!(result.starts_with("~/src"));
    assert!(result.contains("  ")); // separator between parts
}

#[test]
fn resolve_status_bar_right_literal_segment() {
    let segs = vec!["hello".to_string()];
    let result = resolve_status_bar_right(&segs, None, &NOW);
    assert_eq!(result.as_deref(), Some("hello"));
}

#[test]
fn resolve_parts_uses_given_dates() {
    let segs = vec![
        "a".to_string(),
        "%pwd".to_string(),
        "%date{%H}".to_string(),
        "b".to_string(),
    ];
    let dates = vec![None, None, Some("12".to_string()), Some("ignored".to_string())];
    assert_eq!(
        resolve_parts(&segs, Some("~"), &dates).as_deref(),
        Some("a  ~  12  b")
    );
    assert_eq!(
        resolve_parts(&segs, None, &dates).as_deref(),
        Some("a  12  b")
    );
}

#[test]
fn resolve_parts_failed_date_is_skipped() {
    let segs = vec!["%date{x}".to_string()];
    assert!(resolve_parts(&segs, None, &[None]).is_none());
}

#[test]
fn resolve_status_bar_right_unclosed_date_is_literal() {
    let segs = vec!["%date{%Y".to_string()];
    let result = resolve_status_bar_right(&segs, None, &NOW);
    assert_eq!(result.as_deref(), Some("%date{%Y"));
}

#[test]
fn date_formats_extracts_each_date_format() {
    let segs = vec![
        "%date{%Y}".to_string(),
        "%pwd".to_string(),
        "plain".to_string(),
        "%date{%H:%M}".to_string(),
        "%date{}".to_string(),
    ];
    assert_eq!(
        date_formats(&segs),
        vec![
            Some("%Y".to_string()),
            None,
            None,
            Some("%H:%M".to_string()),
            Some(String::new()),
        ]
    );
}

#[test]
fn resolve_status_bar_right_formats_the_given_instant() {
    let segs = vec!["%date{%Y-%m-%d %H:%M}".to_string(), "x".to_string()];
    assert_eq!(
        resolve_status_bar_right(&segs, None, &NOW).as_deref(),
        Some("2023-11-14 23:13  x")
    );
    let utc = LocalTime { secs: 0, nanos: 0, offset_secs: 0 };
    let segs = vec!["%date{%Y}".to_string()];
    assert_eq!(resolve_status_bar_right(&segs, None, &utc).as_deref(), Some("1970"));
}
