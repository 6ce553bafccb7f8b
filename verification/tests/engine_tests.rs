use remi::engine::{Nav, NavOutcome};
use remi::gemtext::GemtextEntry;

#[test]
fn fresh_engine_owes_a_fetch_of_the_default_location() {
    let nav = Nav::new();
    assert!(nav.redir);
    assert!(nav.history.is_empty());
    assert_eq!(nav.history_index, 0);
    assert_eq!(nav.server_name, "geminiprotocol.net");
    assert_eq!(nav.request_data, "gemini://geminiprotocol.net/");
    assert!(nav.invariant_holds());
}

#[test]
fn success_commits_history_and_renders() {
    let mut nav = Nav::new();
    let outcome = nav.handle_response(b"20 text/gemini\r\n# Hi\n");
    assert_eq!(outcome, NavOutcome::Rendered);
    assert!(!nav.redir);
    assert_eq!(nav.history.len(), 1);
    assert_eq!(nav.history_index, 0);
    assert_eq!(nav.history[0].1, "gemini://geminiprotocol.net/");
    assert_eq!(nav.gemtext.data.len(), 1);
    assert!(matches!(&nav.gemtext.data[0], GemtextEntry::MajorHeading(t) if t == "Hi"));
    assert!(nav.invariant_holds());
}

#[test]
fn navigation_appends_and_replay_does_not() {
    let mut nav = Nav::new();
    nav.handle_response(b"20 ok\r\nfront page");
    assert!(nav.navigate("second.gmi"));
    assert!(nav.redir);
    nav.handle_response(b"20 ok\r\nsecond page");
    assert_eq!(nav.history.len(), 2);
    assert_eq!(nav.history_index, 1);

    assert!(nav.history_back());
    assert!(nav.moving_in_history);
    assert!(nav.redir);
    assert_eq!(nav.history_index, 0);
    assert_eq!(nav.request_data, "gemini://geminiprotocol.net/");

    nav.handle_response(b"20 ok\r\nfront again");
    assert!(!nav.moving_in_history);
    assert_eq!(nav.history.len(), 2, "replay must not grow history");
    assert_eq!(nav.history_index, 0);

    assert!(nav.history_forward());
    assert_eq!(nav.history_index, 1);
    nav.handle_response(b"20 ok\r\nsecond again");
    assert_eq!(nav.history.len(), 2);
    assert!(nav.invariant_holds());
}

#[test]
fn new_navigation_truncates_entries_ahead() {
    let mut nav = Nav::new();
    nav.handle_response(b"20 ok\r\none");
    nav.navigate("two.gmi");
    nav.handle_response(b"20 ok\r\ntwo");
    nav.history_back();
    nav.handle_response(b"20 ok\r\none replay");
    nav.navigate("three.gmi");
    nav.handle_response(b"20 ok\r\nthree");
    assert_eq!(nav.history.len(), 2);
    assert!(nav.history[1].1.ends_with("three.gmi"));
    assert_eq!(nav.history_index, 1);
    assert!(nav.invariant_holds());
}

#[test]
fn history_moves_stop_at_the_edges() {
    let mut nav = Nav::new();
    assert!(!nav.history_back());
    assert!(!nav.history_forward());
    nav.handle_response(b"20 ok\r\nonly page");
    assert!(!nav.history_back());
    assert!(!nav.history_forward());
    assert_eq!(nav.history_index, 0);
}

#[test]
fn not_found_rolls_back_without_refetch() {
    let mut nav = Nav::new();
    nav.handle_response(b"20 ok\r\nfront");
    nav.navigate("missing.gmi");
    let committed = nav.history[0].1.clone();
    let outcome = nav.handle_response(b"51 not found\r\n");
    assert_eq!(outcome, NavOutcome::NotFound);
    assert!(!nav.redir);
    assert_eq!(nav.request_data, committed);
    assert_eq!(nav.history.len(), 1);
    assert!(nav.invariant_holds());
}

#[test]
fn permanent_redirect_resolves_and_refetches() {
    let mut nav = Nav::new();
    let outcome = nav.handle_response(b"31 gemini://other.net/moved\r\n");
    assert_eq!(outcome, NavOutcome::Redirected);
    assert!(nav.redir);
    assert_eq!(nav.server_name, "other.net");
    assert_eq!(nav.request_data, "gemini://other.net/moved");
    assert!(nav.history.is_empty(), "intermediate redirects commit no history");
}

#[test]
fn unresolvable_permanent_redirect_is_surfaced() {
    let mut nav = Nav::new();
    let outcome = nav.handle_response(b"31 https://other.net/\r\n");
    assert_eq!(outcome, NavOutcome::RedirectRejected);
    assert!(!nav.redir);
    assert_eq!(nav.request_data, "gemini://geminiprotocol.net/");
}

#[test]
fn parse_error_is_fatal_and_state_kept() {
    let mut nav = Nav::new();
    nav.handle_response(b"20 ok\r\nfront");
    let before = nav.request_data.clone();
    let outcome = nav.handle_response(b"99 bogus\r\n");
    assert_eq!(outcome, NavOutcome::ParseFailed);
    assert!(!nav.redir);
    assert_eq!(nav.request_data, before);
    assert_eq!(nav.history.len(), 1);
}

#[test]
fn categories_without_policy_are_surfaced() {
    for bytes in [
        b"10 what is your name\r\n".as_slice(),
        b"30 gemini://temp.net/\r\n".as_slice(),
        b"40 slow down\r\n".as_slice(),
        b"60 need cert\r\n".as_slice(),
    ] {
        let mut nav = Nav::new();
        let outcome = nav.handle_response(bytes);
        assert_eq!(outcome, NavOutcome::Unsupported);
        assert!(!nav.redir);
        assert!(nav.history.is_empty());
    }
}

#[test]
fn transport_error_without_history_seeds_default_and_retries() {
    let mut nav = Nav::new();
    nav.navigate("gemini://unreachable.net/");
    let outcome = nav.handle_transport_error();
    assert_eq!(outcome, NavOutcome::Retrying);
    assert!(nav.redir);
    assert_eq!(nav.history.len(), 1);
    assert_eq!(nav.history[0].0, "geminiprotocol.net");
    assert_eq!(nav.request_data, "gemini://geminiprotocol.net/");
    assert!(nav.invariant_holds());
}

#[test]
fn transport_error_with_history_rolls_back() {
    let mut nav = Nav::new();
    nav.handle_response(b"20 ok\r\nfront");
    nav.navigate("gemini://unreachable.net/");
    let outcome = nav.handle_transport_error();
    assert_eq!(outcome, NavOutcome::RolledBack);
    assert!(!nav.redir);
    assert_eq!(nav.request_data, "gemini://geminiprotocol.net/");
    assert_eq!(nav.history.len(), 1);
    assert!(nav.invariant_holds());
}

#[test]
fn rejected_navigation_clears_owed_fetch() {
    let mut nav = Nav::new();
    assert!(!nav.navigate("https://www.example.org/"));
    assert!(!nav.redir);
    assert_eq!(nav.request_data, "gemini://geminiprotocol.net/");
}
