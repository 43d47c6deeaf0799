use grimoire::browser_host::{allowed_origins, manifest_targets};
use grimoire::model::{Reference, ReferenceKind};
use grimoire::polaris::{authors_of, new_entry, refreshed, PolarisRecord};

fn record() -> PolarisRecord {
    PolarisRecord {
        title: "Synthetic Paper".to_string(),
        author: Some(" Ada Example ; ;Bo Writer".to_string()),
        filename: "synthetic.pdf".to_string(),
        tags: vec!["ml".to_string()],
    }
}

#[test]
fn polaris_authors_are_split_at_semicolons() {
    assert_eq!(authors_of(&Some("A; B;;  C ".to_string())), ["A", "B", "C"]);
    assert!(authors_of(&None).is_empty());
    assert_eq!(authors_of(&Some("One, Two".to_string())), ["One, Two"]);
}

#[test]
fn polaris_documents_become_papers() {
    let r = new_entry(&record());
    assert_eq!(r.kind, ReferenceKind::Paper);
    assert_eq!(r.title, "Synthetic Paper");
    assert_eq!(r.authors, ["Ada Example", "Bo Writer"]);
    assert_eq!(r.tags, ["ml"]);
    assert_eq!(r.files, ["synthetic.pdf"]);
    let mut existing = Reference::titled("Old".to_string());
    existing.year = Some(2001);
    existing.files = vec!["synthetic.pdf".to_string()];
    let u = refreshed(&existing, &record());
    assert_eq!(u.title, "Synthetic Paper");
    assert_eq!(u.year, Some(2001));
    assert_eq!(u.authors, ["Ada Example", "Bo Writer"]);
    assert_eq!(u.files, ["synthetic.pdf"]);
}

#[test]
fn manifests_go_to_each_browser() {
    let t = manifest_targets("/home/u", false);
    assert_eq!(t.len(), 2);
    assert!(t[0].chromium && !t[1].chromium);
    assert_eq!(t[0].dirs[0], "/home/u/.config/google-chrome/NativeMessagingHosts");
    assert_eq!(t[0].dirs[4], "/home/u/.config/vivaldi/NativeMessagingHosts");
    assert_eq!(t[1].dirs, ["/home/u/.mozilla/native-messaging-hosts"]);
    let m = manifest_targets("/Users/u/", true);
    assert_eq!(m[0].dirs[1], "/Users/u/Library/Application Support/Chromium/NativeMessagingHosts");
    assert_eq!(m[1].dirs, ["/Users/u/Library/Application Support/Mozilla/native-messaging-hosts"]);
    assert_eq!(allowed_origins(&vec!["abc".to_string()]), ["chrome-extension://abc/"]);
}
