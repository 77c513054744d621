use turbo_gc::mode::{gc_env_is_valid, gc_mode_from_env, EnvVar, GcMode};

fn text(value: &str) -> EnvVar {
    EnvVar::Text(value.to_string())
}

#[test]
fn gc_is_off_by_default() {
    assert_eq!(gc_mode_from_env(&EnvVar::Unset, &EnvVar::Unset), None);
    assert_eq!(gc_mode_from_env(&EnvVar::NotUnicode, &EnvVar::Unset), None);
    for value in ["0", "", "false", "no", "TRUE", "1 ", "on"] {
        assert_eq!(gc_mode_from_env(&text(value), &text("scan")), None);
    }
}

#[test]
fn gc_mode_defaults_to_incremental() {
    for value in ["1", "true", "yes"] {
        assert_eq!(gc_mode_from_env(&text(value), &EnvVar::Unset), Some(GcMode::Incremental));
        assert_eq!(
            gc_mode_from_env(&text(value), &text("incremental")),
            Some(GcMode::Incremental)
        );
        assert_eq!(gc_mode_from_env(&text(value), &text("scan")), Some(GcMode::Scan));
    }
}

#[test]
fn unknown_mode_is_invalid_only_where_gc_is_on() {
    assert!(!gc_env_is_valid(&text("1"), &text("Scan")));
    assert!(!gc_env_is_valid(&text("yes"), &text("")));
    assert!(!gc_env_is_valid(&text("true"), &EnvVar::NotUnicode));
    assert!(gc_env_is_valid(&text("1"), &EnvVar::Unset));
    assert!(gc_env_is_valid(&text("1"), &text("scan")));
    assert!(gc_env_is_valid(&text("1"), &text("incremental")));
    assert!(gc_env_is_valid(&text("0"), &text("Scan")));
    assert!(gc_env_is_valid(&EnvVar::Unset, &EnvVar::NotUnicode));
    assert_eq!(gc_mode_from_env(&text("0"), &text("Scan")), None);
}
