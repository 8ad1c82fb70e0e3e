use bpaf::info::Info;

#[test]
fn info_starts_empty() {
    let info = Info::default();
    assert!(info.version.is_none() && info.descr.is_none() && info.header.is_none());
    assert!(info.footer.is_none() && info.usage.is_none());
    let info = Info { version: Some("1.0"), ..Info::default() };
    assert_eq!(info.clone().version, Some("1.0"));
}
