use openshell::identity::{
    read_account_file, resolve_oci_process_identity_at, resolve_process_identity,
    split_oci_declaration, validate_account_file, AccountFile, DriverIdentity, DriverRules,
    ProcessIdentity,
};

fn rules() -> DriverRules {
    DriverRules {
        min_id: 1000,
        max_id: 2_000_000_000,
        oci_user_name: "OCI_IMAGE_USER".to_string(),
        uid_name: "SANDBOX_UID".to_string(),
        gid_name: "SANDBOX_GID".to_string(),
    }
}

fn account_files(passwd: &str, group: &str) -> (AccountFile, AccountFile) {
    let file = |path: &str, text: &str| AccountFile {
        path: path.to_string(),
        text: Ok(text.to_string()),
    };
    (file("/etc/passwd", passwd), file("/etc/group", group))
}

fn policy(user: Option<&str>, group: Option<&str>) -> ProcessIdentity {
    ProcessIdentity {
        run_as_user: user.map(str::to_string),
        run_as_group: group.map(str::to_string),
    }
}

fn resolved(
    user: Option<&str>,
    group_name: Option<&str>,
    declaration: &str,
    files: &(AccountFile, AccountFile),
) -> Result<(String, String), String> {
    let mut policy = policy(user, group_name);
    resolve_oci_process_identity_at(&mut policy, declaration, &files.0, &files.1)?;
    Ok((policy.run_as_user.unwrap(), policy.run_as_group.unwrap()))
}

fn ids(uid: &str, gid: &str) -> Result<(String, String), String> {
    Ok((uid.to_string(), gid.to_string()))
}

#[test]
fn driver_identity_inputs_are_mutually_exclusive_and_complete() {
    let from_values = |oci: Option<&str>, uid: Option<&str>, gid: Option<&str>| {
        DriverIdentity::from_values(
            oci.map(str::to_string),
            uid.map(str::to_string),
            gid.map(str::to_string),
            &rules(),
        )
    };
    assert_eq!(
        from_values(Some("app"), None, None).unwrap(),
        DriverIdentity::OciUser {
            declaration: "app".into()
        }
    );
    assert_eq!(
        from_values(None, Some("1234"), Some("1235")).unwrap(),
        DriverIdentity::Resolved {
            uid: 1234,
            gid: 1235
        }
    );
    assert_eq!(
        from_values(None, None, None).unwrap(),
        DriverIdentity::Unspecified
    );
    assert!(from_values(Some("app"), Some("1234"), Some("1235")).is_err());
    assert!(from_values(None, Some("1234"), None).is_err());

    assert_eq!(
        from_values(Some("app"), None, Some("1")).unwrap_err(),
        "OCI_IMAGE_USER conflicts with non-empty SANDBOX_UID/SANDBOX_GID driver identity"
    );
    assert_eq!(
        from_values(None, None, Some("1234")).unwrap_err(),
        "SANDBOX_UID and SANDBOX_GID must be supplied together"
    );
    for (uid, gid) in [("999", "1234"), ("1234", "0"), ("x", "1234"), ("2000000001", "1234")] {
        assert_eq!(
            from_values(None, Some(uid), Some(gid)).unwrap_err(),
            "driver UID/GID must be numeric identities in range [1000, 2000000000]"
        );
    }
}

#[test]
fn per_field_policy_precedence_resolves_complete_pair() {
    let files = account_files(
        "app:x:1234:1235::/home/app:/bin/sh\nsandbox:x:2000:2001::/sandbox:/bin/sh\n",
        "staff:x:1235:\nsandbox:x:2001:\n",
    );
    let cases = [
        (Some("2000"), Some("2001"), "root", "2000", "2001"),
        (Some("2000"), None, "app:staff", "2000", "1235"),
        (None, Some("2001"), "app:root", "1234", "2001"),
        (None, None, "app", "1234", "1235"),
    ];
    for (user, group_name, declaration, expected_uid, expected_gid) in cases {
        assert_eq!(
            resolved(user, group_name, declaration, &files),
            ids(expected_uid, expected_gid)
        );
    }
}

#[test]
fn numeric_pair_does_not_require_account_entries() {
    let files = account_files("", "");
    assert_eq!(resolved(None, None, "1234:1235", &files), ids("1234", "1235"));
}

#[test]
fn numeric_uid_uses_passwd_primary_gid() {
    let files = account_files("app:x:1234:4321::/home/app:/bin/sh\n", "");
    assert_eq!(resolved(None, None, "1234", &files), ids("1234", "4321"));
}

#[test]
fn missing_unknown_ambiguous_and_root_identities_fail() {
    let files = account_files(
        "app:x:1234:1235::/home/app:/bin/sh\napp:x:2234:2235::/home/app2:/bin/sh\n",
        "staff:x:1235:\nstaff:x:2235:\n",
    );
    for declaration in ["", "unknown", "app", "9999", "0:1235", "1234:0"] {
        assert!(
            resolved(None, None, declaration, &files).is_err(),
            "{declaration:?} unexpectedly resolved"
        );
    }
    let error = |declaration: &str| resolved(None, None, declaration, &files).unwrap_err();
    assert_eq!(
        error(""),
        "OCI USER is required because run_as_user is omitted"
    );
    assert_eq!(
        error("unknown"),
        "OCI USER name 'unknown' was not found in /etc/passwd"
    );
    assert_eq!(error("app"), "account identity is ambiguous in '/etc/passwd'");
    assert_eq!(
        error("9999"),
        "OCI USER '9999' uses a numeric UID without an explicit group, but /etc/passwd has no matching primary GID"
    );
    assert_eq!(error("0:1235"), "OCI USER '0:1235' selects UID 0");
    assert_eq!(
        error("1234:0"),
        "process identity from '1234:0' resolves to prohibited UID/GID 1234:0"
    );
    assert_eq!(error("root"), "OCI USER 'root' selects root");
    assert_eq!(error("1234:"), "OCI USER '1234:' has an empty group component");
    assert_eq!(error("1234:root"), "process group must not select root");
    assert_eq!(
        error("1234:none"),
        "process group 'none' was not found in /etc/group"
    );
    assert_eq!(error("a b\t:1"), "OCI user component 'a b\t' is malformed");
}

#[test]
fn explicit_identities_are_checked() {
    let files = account_files("app:x:1234:1235::/home/app:/bin/sh\n", "");
    let error =
        |user: &str| resolved(Some(user), Some("5"), "app", &files).unwrap_err();
    assert_eq!(error("root"), "process user must not select root");
    assert_eq!(
        error("nobody"),
        "process user 'nobody' was not found in /etc/passwd"
    );
    assert_eq!(
        error("0"),
        "process identity from 'explicit policy' resolves to prohibited UID/GID 0:5"
    );
    assert_eq!(error(" app"), "user component ' app' is malformed");
    let long = "a".repeat(1025);
    assert_eq!(error(&long), format!("user component '{long}' is malformed"));
    assert_eq!(resolved(Some("app"), Some("5"), "", &files), ids("1234", "5"));
    assert_eq!(resolved(Some(""), Some("5"), "app", &files), ids("1234", "5"));
}

#[test]
fn selected_component_is_validated_independently() {
    let files = account_files("app:x:1234:1235::/home/app:/bin/sh\n", "staff:x:1235:\n");
    assert_eq!(
        resolved(Some("1234"), None, "root:staff", &files),
        ids("1234", "1235")
    );
    assert_eq!(
        resolved(None, Some("1235"), "app:root", &files),
        ids("1234", "1235")
    );
}

#[test]
fn account_lines_have_to_be_in_order() {
    let error = |passwd: &str, declaration: &str| {
        resolved(None, None, declaration, &account_files(passwd, "")).unwrap_err()
    };
    assert_eq!(
        error("app:x:1234\n", "app"),
        "matching /etc/passwd entry is malformed"
    );
    assert_eq!(
        error("app:x:one:2::/:/bin/sh\n", "app"),
        "matching /etc/passwd UID is malformed"
    );
    assert_eq!(
        error("app:x:1:two::/:/bin/sh\n", "app"),
        "matching /etc/passwd GID is malformed"
    );
    let long = "x".repeat(1025);
    assert_eq!(
        error(&format!("other:{long}\n"), "app"),
        "account file '/etc/passwd' contains an oversized field"
    );
    let longer = "x:".repeat(4097);
    assert_eq!(
        error(&format!("{longer}\n"), "app"),
        "account file '/etc/passwd' contains an oversized line"
    );
    let group_error = |group: &str| {
        resolved(None, None, "5:staff", &account_files("", group)).unwrap_err()
    };
    assert_eq!(
        group_error("staff:x\n"),
        "matching /etc/group entry is malformed"
    );
    assert_eq!(
        group_error("staff:x:y:\n"),
        "matching /etc/group GID is malformed"
    );
    let commented = account_files(
        "# app:x:1:1::/:/bin/sh\r\n\r\napp:x:7:8::/:/bin/sh\r\n#app:x:1:1::/:/bin/sh",
        "",
    );
    assert_eq!(resolved(None, None, "app", &commented), ids("7", "8"));
}

#[test]
fn a_file_that_is_not_needed_is_not_missed() {
    let unreadable = |path: &str| AccountFile {
        path: path.to_string(),
        text: Err(format!("failed to open '{path}'")),
    };
    let files = (unreadable("/etc/passwd"), unreadable("/etc/group"));
    assert_eq!(
        resolved(Some("1234"), Some("1235"), "app", &files),
        ids("1234", "1235")
    );
    assert_eq!(
        resolved(None, None, "app", &files).unwrap_err(),
        "failed to open '/etc/passwd'"
    );
}

#[test]
fn account_files_are_bounded_text() {
    assert_eq!(
        read_account_file(b"app:x".to_vec(), "/p"),
        Ok("app:x".to_string())
    );
    assert_eq!(
        read_account_file(vec![0xff], "/p").unwrap_err(),
        "account file '/p' is not valid UTF-8"
    );
    assert_eq!(
        read_account_file(vec![b'a'; 1048577], "/p").unwrap_err(),
        "account file '/p' exceeds 1048576 bytes"
    );
    assert_eq!(validate_account_file(true, 1048576, "/p"), Ok(()));
    assert_eq!(
        validate_account_file(true, 1048577, "/p").unwrap_err(),
        "account file '/p' exceeds 1048576 bytes"
    );
    assert_eq!(
        validate_account_file(false, 0, "/p").unwrap_err(),
        "account path '/p' is not a regular file"
    );
}

#[test]
fn declarations_split_at_the_first_colon() {
    assert_eq!(split_oci_declaration("app"), ("app".to_string(), None));
    assert_eq!(
        split_oci_declaration("app:a:b"),
        ("app".to_string(), Some("a:b".to_string()))
    );
    assert_eq!(
        split_oci_declaration(":"),
        (String::new(), Some(String::new()))
    );
}

#[test]
fn a_driver_decides_or_stays_out() {
    let files = account_files("app:x:1234:1235::/home/app:/bin/sh\n", "");
    let mut identity = policy(Some("5"), None);
    let apply = |identity: &mut ProcessIdentity, driver: DriverIdentity| {
        resolve_process_identity(identity, &driver, &files.0, &files.1)
    };
    assert_eq!(apply(&mut identity, DriverIdentity::Unspecified), Ok(()));
    assert_eq!(identity, policy(Some("5"), None));
    assert_eq!(
        apply(&mut identity, DriverIdentity::Resolved { uid: 7, gid: 8 }),
        Ok(())
    );
    assert_eq!(identity, policy(Some("7"), Some("8")));
    let mut identity = policy(None, None);
    let image = DriverIdentity::OciUser {
        declaration: "app".to_string(),
    };
    assert_eq!(apply(&mut identity, image.clone()), Ok(()));
    assert_eq!(identity, policy(Some("1234"), Some("1235")));
    let mut identity = policy(Some("none"), None);
    assert!(apply(&mut identity, image).is_err());
    assert_eq!(identity, policy(Some("none"), None));
}
