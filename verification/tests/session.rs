use gridterm::session::PaneLink;

#[test]
fn started_pane_takes_input() {
    let link = PaneLink::started(7);
    assert!(link.accepts_input());
    assert!(!PaneLink::started(-1).accepts_input());
}

#[test]
fn closing_releases_descriptor_once() {
    let mut link = PaneLink::started(7);
    assert_eq!(link.close(), Some(7));
    assert_eq!(link, PaneLink { fd: -1, closed: true });
    assert!(!link.accepts_input());
    assert_eq!(link.close(), None);
}

#[test]
fn restarting_reopens() {
    let mut link = PaneLink::started(3);
    link.close();
    link.restart(9);
    assert_eq!(link, PaneLink { fd: 9, closed: false });
    assert!(link.accepts_input());
}
