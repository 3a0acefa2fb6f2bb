use brainprint_engine::python_semantic::environment::{
    environment_identity_with, identity_of, is_flagged_mutable, is_mutable_source, kind_of_entry,
    EntryKind, EnvironmentAssurance, EnvironmentFs, EnvironmentIdentity, SiteReading,
};
use brainprint_engine::python_semantic::host::PythonSettings;

const ROOT: &str = "/w";
const SITE_PACKAGES: &str = "/w/.venv/lib/python3.12/site-packages";

/// A filesystem in memory. It lists a directory in the order in which its
/// entries were made.
#[derive(Clone, Default)]
struct Disk {
    dirs: Vec<String>,
    files: Vec<(String, Vec<u8>)>,
    unreadable: Option<String>,
}

impl Disk {
    fn with_site_packages() -> Self {
        let mut disk = Disk::default();
        disk.make_dir(SITE_PACKAGES);
        disk
    }

    fn make_dir(&mut self, path: &str) {
        let mut whole = String::new();
        for part in path.split('/').filter(|part| !part.is_empty()) {
            whole.push('/');
            whole.push_str(part);
            if !self.dirs.contains(&whole) {
                self.dirs.push(whole.clone());
            }
        }
    }

    fn write(&mut self, path: &str, content: &str) {
        let parent = path.rsplit_once('/').expect("an absolute path").0.to_owned();
        self.make_dir(&parent);
        self.files.retain(|(held, _)| held != path);
        self.files.push((path.to_owned(), content.as_bytes().to_vec()));
    }

    /// One ordinary wheel-style install: a `dist-info` directory with the
    /// installer's `RECORD`.
    fn install(&mut self, name_version: &str, record: &str) {
        self.write(
            &format!("{SITE_PACKAGES}/{name_version}.dist-info/RECORD"),
            record,
        );
    }

    fn rename_distribution(&mut self, from: &str, to: &str) {
        let old = format!("{SITE_PACKAGES}/{from}.dist-info");
        let new = format!("{SITE_PACKAGES}/{to}.dist-info");
        for held in self.dirs.iter_mut() {
            if *held == old {
                held.clone_from(&new);
            }
        }
        for (held, _) in self.files.iter_mut() {
            if let Some(rest) = held.strip_prefix(&old) {
                *held = format!("{new}{rest}");
            }
        }
    }
}

impl EnvironmentFs for Disk {
    fn read_dir(&self, path: &str) -> Result<Vec<String>, String> {
        if self.unreadable.as_deref() == Some(path) {
            return Err("injected read failure".to_owned());
        }
        if !self.is_dir(path) {
            return Err("No such file or directory".to_owned());
        }
        let inside = |held: &String| {
            held.strip_prefix(path)
                .and_then(|rest| rest.strip_prefix('/'))
                .is_some_and(|rest| !rest.contains('/'))
        };
        let mut found: Vec<String> = self.dirs.iter().filter(|dir| inside(dir)).cloned().collect();
        found.extend(
            self.files
                .iter()
                .map(|(file, _)| file)
                .filter(|file| inside(file))
                .cloned(),
        );
        Ok(found)
    }

    fn read(&self, path: &str) -> Result<Vec<u8>, String> {
        self.files
            .iter()
            .find(|(held, _)| held == path)
            .map(|(_, content)| content.clone())
            .ok_or_else(|| "No such file or directory".to_owned())
    }

    fn is_dir(&self, path: &str) -> bool {
        self.dirs.iter().any(|held| held == path)
    }
}

fn venv_settings() -> PythonSettings {
    PythonSettings {
        python_path: Some(".venv/bin/python".to_owned()),
        venv_path: Some(".venv".to_owned()),
        ..PythonSettings::default()
    }
}

fn identity(disk: &Disk) -> EnvironmentIdentity {
    environment_identity_with(ROOT, &venv_settings(), disk)
}

#[test]
fn the_environment_identity_covers_installed_distributions() {
    let mut disk = Disk::with_site_packages();
    disk.install("requests-2.31.0", "requests/__init__.py,,\n");
    let before = identity(&disk);
    assert_eq!(before.assurance, EnvironmentAssurance::Proven);
    assert_eq!(before.distributions, 1, "diagnostic, not a proof state");
    // Deterministic, and unchanged metadata does not churn.
    assert_eq!(before.fingerprint, identity(&disk).fingerprint);

    // A dependency version moves without a line of project source
    // changing.
    disk.rename_distribution("requests-2.31.0", "requests-2.32.0");
    let after = identity(&disk);
    assert_ne!(
        before.fingerprint, after.fingerprint,
        "an install can change what an import resolves to"
    );
    assert_eq!(after.assurance, EnvironmentAssurance::Proven);
}

#[test]
fn distribution_order_does_not_change_the_fingerprint() {
    let mut first = Disk::with_site_packages();
    first.install("aaa-1.0", "aaa/__init__.py,,\n");
    first.install("zzz-1.0", "zzz/__init__.py,,\n");
    // Created in the opposite order, so any reliance on readdir order
    // shows up.
    let mut second = Disk::with_site_packages();
    second.install("zzz-1.0", "zzz/__init__.py,,\n");
    second.install("aaa-1.0", "aaa/__init__.py,,\n");
    assert_ne!(first.read_dir(SITE_PACKAGES), second.read_dir(SITE_PACKAGES));

    assert_eq!(
        identity(&first).fingerprint,
        identity(&second).fingerprint,
        "the same installed set is the same environment"
    );
}

#[test]
fn a_same_version_reinstall_with_different_contents_moves_the_fingerprint() {
    let mut disk = Disk::with_site_packages();
    disk.install("pkg-1.0", "pkg/__init__.py,sha256=aaa,10\n");
    let before = identity(&disk);

    // Same name, same version, different installed content: only the
    // installer's RECORD says so.
    disk.install("pkg-1.0", "pkg/__init__.py,sha256=bbb,12\n");
    let after = identity(&disk);

    assert_eq!(after.assurance, EnvironmentAssurance::Proven);
    assert_ne!(
        before.fingerprint, after.fingerprint,
        "a directory name is not an immutability proof; RECORD is"
    );
}

#[test]
fn an_unobservable_environment_is_unknown_rather_than_assumed_current() {
    let disk = Disk::default();
    let identity = environment_identity_with(ROOT, &PythonSettings::default(), &disk);
    assert!(matches!(
        identity.assurance,
        EnvironmentAssurance::Unknown { .. }
    ));
    assert!(!identity.assurance.is_proven());
    // Still deterministic: an unproven environment must not make every
    // publication churn.
    assert_eq!(
        identity.fingerprint,
        environment_identity_with(ROOT, &PythonSettings::default(), &disk).fingerprint
    );
}

#[test]
fn a_venv_without_site_packages_is_unknown() {
    let mut disk = Disk::default();
    disk.make_dir("/w/.venv/bin");
    let found = identity(&disk);
    assert!(!found.assurance.is_proven());
    assert_eq!(found.distributions, 0);
    assert_eq!(found.fingerprint, identity(&disk).fingerprint);
}

#[test]
fn an_unreadable_site_packages_is_unknown_not_an_empty_environment() {
    let mut readable = Disk::with_site_packages();
    readable.install("requests-2.31.0", "requests/__init__.py,,\n");
    let mut disk = readable.clone();
    disk.unreadable = Some(SITE_PACKAGES.to_owned());
    let found = identity(&disk);

    assert!(
        !found.assurance.is_proven(),
        "an I/O error is not an observation: {:?}",
        found.assurance
    );
    assert_eq!(
        found.distributions, 0,
        "and zero distributions here means nothing was seen, not that none exist"
    );
    assert_ne!(
        found.fingerprint,
        identity(&readable).fingerprint,
        "what was read and what could not be are different observations"
    );
}

#[test]
fn a_distribution_whose_record_cannot_be_read_is_unknown() {
    let mut disk = Disk::with_site_packages();
    // A dist-info with no RECORD at all: readable directory, no proof.
    disk.make_dir(&format!("{SITE_PACKAGES}/pkg-1.0.dist-info"));
    let found = identity(&disk);
    assert!(!found.assurance.is_proven());
    assert_eq!(found.distributions, 1, "it was seen, just not proven");
}

#[test]
fn an_editable_install_is_unknown_however_stable_its_version_looks() {
    let mut disk = Disk::with_site_packages();
    disk.install("my-lib-1.0", "my_lib/__init__.py,,\n");
    disk.write(
        &format!("{SITE_PACKAGES}/my-lib-1.0.dist-info/direct_url.json"),
        r#"{"url":"file:///work/my-lib","dir_info":{"editable":true}}"#,
    );
    assert!(
        !identity(&disk).assurance.is_proven(),
        "the checkout can change with no installed metadata moving"
    );
}

#[test]
fn a_non_editable_directory_install_stays_proven() {
    let mut disk = Disk::with_site_packages();
    disk.install("my-lib-1.0", "my_lib/__init__.py,,\n");
    disk.write(
        &format!("{SITE_PACKAGES}/my-lib-1.0.dist-info/direct_url.json"),
        r#"{"url":"file:///work/my-lib","dir_info":{}}"#,
    );
    // A copy, and RECORD pins what was copied.
    assert_eq!(identity(&disk).assurance, EnvironmentAssurance::Proven);
}

#[test]
fn an_egg_link_environment_is_not_silently_proven() {
    let mut disk = Disk::with_site_packages();
    disk.install("requests-2.31.0", "requests/__init__.py,,\n");
    disk.write(&format!("{SITE_PACKAGES}/my-lib.egg-link"), "/work/my-lib\n");
    assert!(!identity(&disk).assurance.is_proven());
}

#[test]
fn a_path_injecting_pth_is_not_silently_proven() {
    let mut disk = Disk::with_site_packages();
    disk.install("requests-2.31.0", "requests/__init__.py,,\n");

    // A comment-only .pth changes nothing about resolution.
    disk.write(&format!("{SITE_PACKAGES}/harmless.pth"), "# nothing here\n");
    assert_eq!(identity(&disk).assurance, EnvironmentAssurance::Proven);

    // One that adds a directory to sys.path does.
    disk.write(&format!("{SITE_PACKAGES}/inject.pth"), "/work/src\n");
    let injected = identity(&disk);
    assert!(!injected.assurance.is_proven());
    assert_eq!(
        injected.fingerprint,
        identity(&disk).fingerprint,
        "unknown does not mean random"
    );
}

#[test]
fn a_legacy_egg_info_install_is_not_silently_proven() {
    let mut disk = Disk::with_site_packages();
    disk.make_dir(&format!("{SITE_PACKAGES}/old-1.0.egg-info"));
    assert!(!identity(&disk).assurance.is_proven());
}

#[test]
fn bytes_that_are_no_text_are_still_read() {
    let mut disk = Disk::with_site_packages();
    disk.install("requests-2.31.0", "requests/__init__.py,,\n");
    let path = format!("{SITE_PACKAGES}/blank.pth");
    disk.write(&path, "");
    // A stray byte makes a line that is not blank and not a comment.
    disk.files.retain(|(held, _)| held != &path);
    disk.files.push((path, vec![b'#', 0xff, b'\n', 0x20, 0x09, b'\n']));
    assert_eq!(identity(&disk).assurance, EnvironmentAssurance::Proven);
    let other = format!("{SITE_PACKAGES}/stray.pth");
    disk.files.push((other, vec![0xff, b'\n']));
    assert!(!identity(&disk).assurance.is_proven());
}

#[test]
fn a_direct_url_is_mutable_only_where_it_says_so() {
    assert!(is_mutable_source(r#"{"dir_info":{"editable":true}}"#));
    assert!(!is_mutable_source(r#"{"dir_info":{"editable":false}}"#));
    assert!(!is_mutable_source(r#"{"dir_info":{"editable":"yes"}}"#));
    assert!(!is_mutable_source(r#"{"url":"file:///x"}"#));
    // What cannot be read proves nothing.
    assert!(is_mutable_source("not json"));
    assert!(is_flagged_mutable(&Err("eof".to_owned())));
    assert!(is_flagged_mutable(&Ok(Some(true))));
    assert!(!is_flagged_mutable(&Ok(Some(false))));
    assert!(!is_flagged_mutable(&Ok(None)));
}

#[test]
fn entries_are_told_apart_by_their_names() {
    assert_eq!(kind_of_entry("requests-2.31.0.dist-info"), EntryKind::Distribution);
    assert_eq!(kind_of_entry("old-1.0.egg-info"), EntryKind::EggInfo);
    assert_eq!(kind_of_entry("my-lib.egg-link"), EntryKind::EggLink);
    assert_eq!(kind_of_entry("inject.pth"), EntryKind::PathFile);
    assert_eq!(kind_of_entry("requests"), EntryKind::Other);
}

#[test]
fn what_was_not_seen_is_never_proven() {
    for reading in [
        SiteReading::NoVenv,
        SiteReading::NoSitePackages,
        SiteReading::Unreadable,
    ] {
        assert!(!identity_of(&venv_settings(), &reading).assurance.is_proven());
    }
    let empty = identity_of(&venv_settings(), &SiteReading::Entries(Vec::new()));
    assert!(empty.assurance.is_proven());
    assert_eq!(empty.distributions, 0);
}

#[test]
fn the_same_packages_under_another_root_are_the_same_environment() {
    let mut here = Disk::with_site_packages();
    here.install("aaa-1.0", "aaa/__init__.py,,\n");
    here.write(&format!("{SITE_PACKAGES}/paths.pth"), "# nothing\n");
    here.install("zzz-1.0", "zzz/__init__.py,,\n");
    let mut there = Disk::default();
    let elsewhere = SITE_PACKAGES.replacen(ROOT, "/another/place", 1);
    there.write(&format!("{elsewhere}/zzz-1.0.dist-info/RECORD"), "zzz/__init__.py,,\n");
    there.write(&format!("{elsewhere}/aaa-1.0.dist-info/RECORD"), "aaa/__init__.py,,\n");
    there.write(&format!("{elsewhere}/paths.pth"), "# nothing\n");

    let first = identity(&here);
    let second = environment_identity_with("/another/place", &venv_settings(), &there);
    assert_eq!(first, second);
    assert_eq!(first.distributions, 2);

    there.write(&format!("{elsewhere}/zzz-1.0.dist-info/RECORD"), "zzz/other.py,,\n");
    let moved = environment_identity_with("/another/place", &venv_settings(), &there);
    assert_ne!(moved.fingerprint, first.fingerprint);
}
