use pigtree::security::{build_pipe_sddl, constant_time_eq, constant_time_eq_32};

#[test]
fn test_constant_time_eq() {
    let n1 = [42u8; 32];
    let mut n2 = [42u8; 32];
    assert!(constant_time_eq(&n1, &n2));
    assert!(constant_time_eq_32(&n1, &n2));

    n2[31] = 43;
    assert!(!constant_time_eq(&n1, &n2));
    assert!(!constant_time_eq_32(&n1, &n2));

    assert!(!constant_time_eq(&n1[..31], &n2));
}

#[test]
fn test_build_pipe_sddl_unrestricted() {
    let user_sid = "S-1-5-21-123456789-123456789-123456789-1001";
    let restricted: Vec<String> = vec![];
    let sddl = build_pipe_sddl(user_sid, &restricted);

    assert_eq!(
        sddl,
        "D:(A;;GA;;;S-1-5-21-123456789-123456789-123456789-1001)S:(ML;;NW;;;ME)"
    );
    assert!(sddl.contains(user_sid));
    assert!(sddl.ends_with("S:(ML;;NW;;;ME)"));
    assert!(!sddl.contains("WD"));
    assert!(!sddl.contains("AU"));
    assert!(!sddl.contains("S-1-1-0"));
    assert!(!sddl.contains("S-1-5-11"));
}

#[test]
fn test_build_pipe_sddl_filters_broad_and_duplicate_sids() {
    let user_sid = "S-1-5-21-1111-2222-3333-1001";
    let restricted = vec![
        "WD".to_string(),
        "S-1-1-0".to_string(),
        "AU".to_string(),
        "S-1-5-11".to_string(),
        "BU".to_string(),
        "S-1-5-32-545".to_string(),
        "BA".to_string(),
        "S-1-5-32-544".to_string(),
        "BG".to_string(),
        "S-1-5-32-546".to_string(),
        "NU".to_string(),
        "S-1-5-2".to_string(),
        "IU".to_string(),
        "S-1-5-4".to_string(),
        "AN".to_string(),
        "S-1-5-7".to_string(),
        "S-1-5-15".to_string(),
        "".to_string(),
        "   ".to_string(),
        user_sid.to_string(),
        "S-1-4-116092966-951971648-1".to_string(),
        "S-1-5-5-0-515154".to_string(),
    ];

    let sddl = build_pipe_sddl(user_sid, &restricted);

    assert_eq!(
        sddl,
        "D:(A;;GA;;;S-1-5-21-1111-2222-3333-1001)(A;;GA;;;S-1-4-116092966-951971648-1)(A;;GA;;;S-1-5-5-0-515154)S:(ML;;NW;;;ME)"
    );

    assert!(!sddl.contains(";;;WD)"));
    assert!(!sddl.contains(";;;AU)"));
    assert!(!sddl.contains(";;;BU)"));
    assert!(!sddl.contains(";;;BA)"));
    assert!(!sddl.contains(";;;BG)"));
    assert!(!sddl.contains(";;;NU)"));
    assert!(!sddl.contains(";;;IU)"));
    assert!(!sddl.contains(";;;AN)"));
    assert!(!sddl.contains(";;;S-1-1-0)"));
    assert!(!sddl.contains(";;;S-1-5-11)"));
    assert!(!sddl.contains(";;;S-1-5-32-545)"));
    assert!(!sddl.contains(";;;S-1-5-32-544)"));
    assert!(!sddl.contains(";;;S-1-5-32-546)"));
    assert!(!sddl.contains(";;;S-1-5-7)"));
    assert!(!sddl.contains(";;;S-1-5-2)"));
    assert!(!sddl.contains(";;;S-1-5-4)"));
    assert!(!sddl.contains(";;;S-1-5-15)"));

    let user_matches: Vec<_> = sddl.match_indices(user_sid).collect();
    assert_eq!(user_matches.len(), 1);
}

#[test]
fn test_build_pipe_sddl_never_grants_broad_or_empty_user_sid() {
    assert_eq!(build_pipe_sddl("WD", &[]), "D:S:(ML;;NW;;;ME)");
    assert_eq!(build_pipe_sddl(" S-1-1-0 ", &[]), "D:S:(ML;;NW;;;ME)");
    assert_eq!(
        build_pipe_sddl("", &["S-1-5-5-0-1".to_string()]),
        "D:(A;;GA;;;S-1-5-5-0-1)S:(ML;;NW;;;ME)"
    );
    let out = build_pipe_sddl("AU", &["WD".to_string(), "S-1-5-21-9".to_string()]);
    assert_eq!(out, "D:(A;;GA;;;S-1-5-21-9)S:(ML;;NW;;;ME)");
    assert!(!out.contains(";;;AU)"));
    assert!(!out.contains(";;;WD)"));
}
