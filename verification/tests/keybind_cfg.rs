use voidframe::keybind_cfg::{reconcile, redact, reserved_tokens, strip_reserved, CFG_FILENAME};

#[test]
fn reserved_tokens_always_present_with_empty_user_args() {
    let merged = reconcile("");
    assert!(merged.contains("-condebug"));
    assert!(merged.contains("-conclearlog"));
    assert!(merged.contains(&format!("+exec {CFG_FILENAME}")));
}

#[test]
fn user_args_pass_through_completely_unvalidated() {
    let merged = reconcile("-insecure -tools -textmode +sv_cheats 1 -whatever-i-want");
    for word in ["-insecure", "-tools", "-textmode", "-whatever-i-want"] {
        assert!(merged.contains(word), "{merged} missing {word}");
    }
}

#[test]
fn reserved_tokens_come_before_user_args() {
    let merged = reconcile("-novid");
    let condebug_pos = merged.find("-condebug").unwrap();
    let novid_pos = merged.find("-novid").unwrap();
    assert!(condebug_pos < novid_pos);
}

#[test]
fn strip_reserved_removes_all_three_reserved_tokens_case_insensitively() {
    let raw = format!("-CONDEBUG -conclearlog +EXEC {CFG_FILENAME} -novid");
    let stripped = strip_reserved(&raw);
    assert_eq!(stripped, "-novid");
}

#[test]
fn strip_reserved_leaves_a_stray_exec_pointing_at_a_different_file_alone() {
    let stripped = strip_reserved("+exec something_else.cfg -novid");
    assert!(stripped.contains("+exec something_else.cfg"));
    assert!(stripped.contains("-novid"));
}

#[test]
fn strip_reserved_of_empty_text_is_empty() {
    assert_eq!(strip_reserved(""), "");
}

#[test]
fn strip_reserved_of_reconcile_of_empty_user_args_is_empty() {
    assert_eq!(strip_reserved(&reconcile("")), "");
}

#[test]
fn round_trip_strip_reserved_of_reconcile_reproduces_user_args() {
    let user_args = "-high -threads 8 -novid";
    let round_tripped = strip_reserved(&reconcile(user_args));
    assert!(
        round_tripped
            .split_whitespace()
            .eq(user_args.split_whitespace()),
        "{round_tripped:?} != {user_args:?}"
    );
}

#[test]
fn redact_replaces_the_value_following_password_case_insensitively() {
    assert_eq!(redact("+password hunter2 -novid"), "+password <redacted> -novid");
    assert_eq!(redact("+PASSWORD hunter2 -novid"), "+PASSWORD <redacted> -novid");
}

#[test]
fn redact_replaces_all_three_secret_keys() {
    assert_eq!(
        redact("+rcon_password hunter2 +sv_password hunter3 -novid"),
        "+rcon_password <redacted> +sv_password <redacted> -novid"
    );
}

#[test]
fn redact_of_a_string_with_no_secret_is_unchanged_modulo_whitespace() {
    assert_eq!(redact("  -novid   -tools  "), "-novid -tools");
}

#[test]
fn redact_of_a_trailing_secret_key_with_no_value_does_not_panic() {
    assert_eq!(redact("-novid +password"), "-novid +password");
}

#[test]
fn redact_does_not_let_a_secret_key_consume_a_following_secret_keys_value() {
    assert_eq!(
        redact("+password +rcon_password hunter2"),
        "+password +rcon_password <redacted>"
    );
}

#[test]
fn redact_handles_a_repeated_key_with_two_separate_values() {
    assert_eq!(redact("+password a +password b"), "+password <redacted> +password <redacted>");
}

#[test]
fn reserved_tokens_are_the_three_voidframe_needs_in_order() {
    assert_eq!(
        reserved_tokens(),
        vec!["-condebug".to_string(), "-conclearlog".to_string(), format!("+exec {CFG_FILENAME}")]
    );
}

#[test]
fn reconcile_puts_reserved_tokens_first_and_normalizes_whitespace() {
    assert_eq!(
        reconcile("  -novid   -high "),
        format!("-condebug -conclearlog +exec {CFG_FILENAME} -novid -high")
    );
}

#[test]
fn reconcile_is_idempotent_on_its_own_output() {
    let once = reconcile("-novid");
    assert_eq!(reconcile(&strip_reserved(&once)), once);
}

#[test]
fn redact_is_idempotent() {
    let once = redact("+password a -novid +sv_password b");
    assert_eq!(redact(&once), once);
}

#[test]
fn strip_reserved_of_text_without_reserved_tokens_only_normalizes_whitespace() {
    assert_eq!(strip_reserved("  -novid\t -high \n+fps_max 0  "), "-novid -high +fps_max 0");
    assert_eq!(strip_reserved(&reconcile("  -novid\t -high  ")), "-novid -high");
    assert_eq!(strip_reserved("   "), "");
}
