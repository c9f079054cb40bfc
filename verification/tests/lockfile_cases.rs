use reposeal::identity::{ComponentRef, Ecosystem};
use reposeal::lockfile::{AgentLock, LockError, LockedComponent};
use reposeal::report::Timestamp;
use reposeal::workflow::{lock_entry, synthetic_block};

fn now() -> Timestamp {
    Timestamp { seconds: 1_700_000_000, nanos: 0 }
}

fn entry(name: &str) -> LockedComponent {
    let component = ComponentRef::new(Ecosystem::Github, name, None)
        .unwrap_or_else(|error| panic!("{error:?}"));
    let report = synthetic_block(component.clone_ref(), "X", "y", "id".to_owned(), now());
    lock_entry(&component, &report, None, false, None, now())
}

#[test]
fn upsert_keeps_entries_sorted_and_verified() {
    let mut lock = AgentLock::new();
    let mut fields: Vec<Vec<u8>> = Vec::new();
    assert!(lock.upsert(entry("zeta/z"), b"{\"z\":1}", &mut fields).is_ok());
    assert!(lock.upsert(entry("alpha/a"), b"{\"a\":1}", &mut fields).is_ok());
    assert_eq!(lock.components.len(), 2);
    assert_eq!(lock.components[0].id, "github:alpha/a");
    assert_eq!(lock.components[1].id, "github:zeta/z");
    assert_eq!(fields[0], b"{\"a\":1}".to_vec());
    assert!(lock.verify(&fields).is_ok());
    // Replacing an entry keeps one entry per ID.
    assert!(lock.upsert(entry("alpha/a"), b"{\"a\":2}", &mut fields).is_ok());
    assert_eq!(lock.components.len(), 2);
    assert_eq!(fields[0], b"{\"a\":2}".to_vec());
}

#[test]
fn tampered_fields_fail_verification() {
    let mut lock = AgentLock::new();
    let mut fields: Vec<Vec<u8>> = Vec::new();
    assert!(lock.upsert(entry("owner/project"), b"{\"commit\":\"38b94d4\"}", &mut fields).is_ok());
    fields[0] = b"{\"commit\":\"attacker\"}".to_vec();
    assert_eq!(
        lock.verify(&fields).unwrap_err(),
        LockError::EntryHashMismatch("github:owner/project".to_owned())
    );
}

#[test]
fn structural_faults_are_reported() {
    let mut lock = AgentLock::new();
    let mut fields: Vec<Vec<u8>> = Vec::new();
    assert!(lock.upsert(entry("alpha/a"), b"{}", &mut fields).is_ok());
    assert!(lock.upsert(entry("beta/b"), b"{}", &mut fields).is_ok());
    let mut reversed = lock.clone();
    reversed.components.swap(0, 1);
    assert_eq!(reversed.verify(&fields).unwrap_err(), LockError::NotSorted);
    let mut missing = lock.clone();
    missing.components[0].dependencies = vec!["github:gone/away".to_owned()];
    let mut f = fields.clone();
    let mut first = missing.components[0].clone();
    first.seal(b"{\"deps\":1}");
    missing.components[0] = first;
    f[0] = b"{\"deps\":1}".to_vec();
    assert_eq!(
        missing.verify(&f).unwrap_err(),
        LockError::MissingDependency {
            component: "github:alpha/a".to_owned(),
            dependency: "github:gone/away".to_owned(),
        }
    );
    let mut bad_version = lock.clone();
    bad_version.version = 2;
    assert_eq!(bad_version.verify(&fields).unwrap_err(), LockError::UnsupportedVersion(2));
    assert_eq!(lock.verify(&Vec::new()).unwrap_err(), LockError::InvalidShape);
}
