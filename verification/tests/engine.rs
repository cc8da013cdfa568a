use std::cell::Cell;

use legba::run;
use legba::CredSpace;
use legba::Credentials;
use legba::Error;
use legba::Loot;
use legba::Options;
use legba::Plugin;
use legba::Scheduler;
use legba::StopPolicy;

/// Accepts exactly one known credential pair.
struct OneKeyPlugin {
    username: String,
    password: String,
    attempts: Cell<usize>,
}

impl OneKeyPlugin {
    fn new(username: &str, password: &str) -> OneKeyPlugin {
        OneKeyPlugin {
            username: username.to_string(),
            password: password.to_string(),
            attempts: Cell::new(0),
        }
    }
}

impl Plugin for OneKeyPlugin {
    fn description(&self) -> &'static str {
        "accepts one fixed credential"
    }

    fn setup(&mut self, _opts: &Options) -> Result<(), Error> {
        Ok(())
    }

    fn attempt(&self, creds: &Credentials, _timeout_ms: u64) -> Result<Option<Loot>, Error> {
        self.attempts.set(self.attempts.get() + 1);
        if creds.username == self.username && creds.password == self.password {
            Ok(Some(Loot::from_credential(&creds.username, &creds.password)))
        } else {
            Ok(None)
        }
    }
}

/// Always reports a transient error.
struct AlwaysErrorPlugin {
    attempts: Cell<usize>,
}

impl Plugin for AlwaysErrorPlugin {
    fn description(&self) -> &'static str {
        "always errors"
    }

    fn setup(&mut self, _opts: &Options) -> Result<(), Error> {
        Ok(())
    }

    fn attempt(&self, _creds: &Credentials, _timeout_ms: u64) -> Result<Option<Loot>, Error> {
        self.attempts.set(self.attempts.get() + 1);
        Err(Error::Attempt("connection refused".to_string()))
    }
}

fn password_space(passwords: &[&str]) -> CredSpace {
    CredSpace::new(
        vec!["root".to_string()],
        passwords.iter().map(|p| p.to_string()).collect(),
    )
}

#[test]
fn space_size_is_product_and_covers_all_pairs() {
    let mut space = CredSpace::new(
        vec!["a".to_string(), "b".to_string()],
        vec!["x".to_string(), "y".to_string(), "z".to_string()],
    );
    assert_eq!(space.size(), 6);
    let mut pairs = vec![];
    while let Some(c) = space.next() {
        pairs.push((c.username, c.password));
    }
    let expected: Vec<(String, String)> = [
        ("a", "x"),
        ("a", "y"),
        ("a", "z"),
        ("b", "x"),
        ("b", "y"),
        ("b", "z"),
    ]
    .iter()
    .map(|(u, p)| (u.to_string(), p.to_string()))
    .collect();
    assert_eq!(pairs, expected);
}

#[test]
fn engine_finds_known_credential_at_any_concurrency() {
    for concurrency in [1, 4, 16] {
        let space = password_space(&["a", "b", "c"]);
        let plugins = vec![OneKeyPlugin::new("root", "b")];
        let report = run(&space, &plugins, StopPolicy::Exhaustive, 3, concurrency, 100);
        assert_eq!(report.total, 3);
        assert_eq!(report.completed, 3);
        assert_eq!(report.loot.len(), 1);
        assert_eq!(report.loot[0].pairs[0], ("username".to_string(), "root".to_string()));
        assert_eq!(report.loot[0].pairs[1], ("password".to_string(), "b".to_string()));
    }
}

#[test]
fn end_to_end_wordlist_exhaustive_run() {
    let mut wordlist = legba::Wordlist::new(vec![
        "a".to_string(),
        "b".to_string(),
        "c".to_string(),
    ]);
    let passwords = wordlist.drain();
    let space = CredSpace::new(vec!["root".to_string()], passwords);
    let plugins = vec![OneKeyPlugin::new("root", "b")];
    let report = run(&space, &plugins, StopPolicy::Exhaustive, 2, 4, 100);
    assert_eq!(report.completed, 3);
    assert_eq!(report.loot.len(), 1);
    assert_eq!(report.loot[0].pairs[0], ("username".to_string(), "root".to_string()));
    assert_eq!(report.loot[0].pairs[1], ("password".to_string(), "b".to_string()));
    assert_eq!(plugins[0].attempts.get(), 3);
}

#[test]
fn stop_on_first_success_stops_dispatching() {
    let space = password_space(&["a", "b", "c"]);
    let plugins = vec![OneKeyPlugin::new("root", "a")];
    let report = run(&space, &plugins, StopPolicy::StopOnFirstSuccess, 3, 8, 100);
    assert_eq!(report.loot.len(), 1);
    assert_eq!(report.completed, 1);
    assert_eq!(plugins[0].attempts.get(), 1);
}

#[test]
fn no_dispatch_after_success_under_stop_on_first_success() {
    let mut sched = Scheduler::new(1, 3, StopPolicy::StopOnFirstSuccess, 2, 4);
    let attempt = sched.dispatch().unwrap();
    assert_eq!(attempt.cred_index, 0);
    let creds = Credentials { username: "root".to_string(), password: "pw".to_string() };
    sched.complete(
        attempt,
        Ok(Some(Loot::from_credential(&creds.username, &creds.password))),
    );
    assert!(sched.dispatch().is_none());
    assert!(sched.is_done());
}

#[test]
fn always_error_plugin_is_retried_then_skipped() {
    let max_retries = 2;
    let space = password_space(&["a", "b", "c"]);
    let plugins = vec![AlwaysErrorPlugin { attempts: Cell::new(0) }];
    let report = run(&space, &plugins, StopPolicy::Exhaustive, max_retries, 4, 100);
    assert_eq!(report.completed, 3);
    assert_eq!(report.total, 3);
    assert_eq!(report.loot.len(), 0);
    assert_eq!(plugins[0].attempts.get(), 3 * (max_retries + 1));
}

#[test]
fn stop_per_target_solves_each_target_once() {
    let space = password_space(&["a", "b"]);
    let plugins = vec![OneKeyPlugin::new("root", "a"), OneKeyPlugin::new("root", "b")];
    let report = run(&space, &plugins, StopPolicy::StopPerTarget, 1, 2, 100);
    assert_eq!(report.total, 4);
    assert_eq!(report.loot.len(), 2);
}

#[test]
fn scheduler_retries_then_moves_on() {
    let creds = Credentials { username: "root".to_string(), password: "pw".to_string() };
    let mut sched = Scheduler::new(1, 2, StopPolicy::Exhaustive, 1, 1);
    assert_eq!(sched.progress(), (0, 2));

    let first = sched.dispatch().unwrap();
    assert_eq!((first.target, first.cred_index, first.tries), (0, 0, 0));
    sched.complete(first, Err(Error::Attempt("timed out".to_string())));

    let retry = sched.dispatch().unwrap();
    assert_eq!((retry.target, retry.cred_index, retry.tries), (0, 0, 1));
    sched.complete(retry, Err(Error::Attempt("timed out".to_string())));
    assert_eq!(sched.progress(), (1, 2));

    let second = sched.dispatch().unwrap();
    assert_eq!((second.target, second.cred_index, second.tries), (0, 1, 0));
    sched.complete(
        second,
        Ok(Some(Loot::from_credential(&creds.username, &creds.password))),
    );
    assert_eq!(sched.progress(), (2, 2));
    assert!(sched.is_done());
    assert!(sched.dispatch().is_none());
}

#[test]
fn cancellation_stops_dispatch_but_accepts_in_flight_results() {
    let mut sched = Scheduler::new(1, 3, StopPolicy::Exhaustive, 1, 2);
    let in_flight = sched.dispatch().unwrap();
    sched.cancel();
    assert!(sched.dispatch().is_none());
    sched.complete(in_flight, Ok(None));
    assert!(sched.is_done());
    assert_eq!(sched.progress(), (1, 3));
}

#[test]
fn empty_space_finishes_immediately() {
    let space = CredSpace::new(vec![], vec!["x".to_string()]);
    let plugins = vec![OneKeyPlugin::new("root", "x")];
    let report = run(&space, &plugins, StopPolicy::Exhaustive, 1, 1, 100);
    assert_eq!(report.total, 0);
    assert_eq!(report.completed, 0);
    assert_eq!(report.loot.len(), 0);
    assert_eq!(plugins[0].attempts.get(), 0);
}
