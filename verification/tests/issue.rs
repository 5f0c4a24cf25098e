use lait::ids::{DocId, LabelId, ProjectId, UserId, WorkspaceId};
use lait::issue::{IssueContainer, IssueDoc, IssueError, NewIssue, Priority};

fn ws() -> WorkspaceId {
    WorkspaceId::parse("ws_01JTHMH8QTABCDEFGHJKMNPQRS").unwrap()
}
fn prj() -> ProjectId {
    ProjectId::parse("prj_01JTHMH8QTABCDEFGHJKMNPQRS").unwrap()
}
fn doc() -> DocId {
    DocId::parse("iss_01JTHMH8QTABCDEFGHJKMNPQRS").unwrap()
}
fn user() -> UserId {
    UserId::from_key_text(&"a".repeat(64)).unwrap()
}

fn sample() -> IssueDoc {
    IssueDoc::create(NewIssue {
        doc_id: doc(),
        workspace_id: ws(),
        project_id: prj(),
        title: "fix login".into(),
        priority: Priority::High,
        created_by: user(),
        created_at: 1000,
        body: Some("the token refresh races".into()),
    })
    .unwrap()
}

#[test]
fn create_and_read_back() {
    let i = sample();
    assert_eq!(i.title(), "fix login");
    assert_eq!(i.status(), "backlog");
    assert_eq!(i.priority(), Priority::High);
    assert_eq!(i.description(), "the token refresh races");
    assert_eq!(i.created_at(), 1000);
    assert!(i.doc_id().is_some());
    assert!(i.assignees().is_empty());
}

#[test]
fn edit_lww_fields() {
    let mut i = sample();
    i.set_title("fix login race").unwrap();
    i.set_status("in_progress").unwrap();
    i.set_priority(Priority::Urgent).unwrap();
    i.commit();
    assert_eq!(i.title(), "fix login race");
    assert_eq!(i.status(), "in_progress");
    assert_eq!(i.priority(), Priority::Urgent);
}

#[test]
fn assignees_are_a_present_key_set() {
    let mut i = sample();
    let u1 = UserId::from_key_text(&"a".repeat(64)).unwrap();
    let u2 = UserId::from_key_text(&"b".repeat(64)).unwrap();
    i.add_assignee(&u1).unwrap();
    i.add_assignee(&u2).unwrap();
    i.commit();
    assert_eq!(i.assignees().len(), 2);
    i.remove_assignee(&u1).unwrap();
    i.commit();
    assert_eq!(i.assignees(), vec![u2]);
}

#[test]
fn labels_add_remove() {
    let mut i = sample();
    let l = LabelId::parse("lbl_01JTHMH8QTABCDEFGHJKMNPQRS").unwrap();
    i.add_label(&l).unwrap();
    i.commit();
    assert_eq!(i.labels(), vec![l.clone()]);
    i.remove_label(&l).unwrap();
    i.commit();
    assert!(i.labels().is_empty());
}

#[test]
fn comments_append_immutably() {
    let mut i = sample();
    i.add_comment(&user(), 10, "first").unwrap();
    i.add_comment(&user(), 20, "second").unwrap();
    i.commit();
    let cs = i.comments();
    assert_eq!(cs.len(), 2);
    assert_eq!(cs[0].body, "first");
    assert_eq!(cs[1].ts, 20);
}

#[test]
fn description_full_replace() {
    let mut i = sample();
    i.set_description("brand new body").unwrap();
    i.commit();
    assert_eq!(i.description(), "brand new body");
}

#[test]
fn snapshot_roundtrip_preserves_state() {
    let mut i = sample();
    i.set_status("done").unwrap();
    i.commit();
    let snap = i.snapshot().unwrap();
    let loaded = IssueDoc::from_doc({
        let d = loro::LoroDoc::new();
        d.import(&snap).unwrap();
        d
    });
    assert_eq!(loaded.title(), "fix login");
    assert_eq!(loaded.status(), "done");
}

#[test]
fn created_issue_holds_its_ids_and_creator() {
    let i = sample();
    assert_eq!(i.doc_id().unwrap().as_str(), "iss_01JTHMH8QTABCDEFGHJKMNPQRS");
    assert_eq!(i.workspace_id().unwrap().as_str(), "ws_01JTHMH8QTABCDEFGHJKMNPQRS");
    assert_eq!(i.project_id().unwrap().as_str(), "prj_01JTHMH8QTABCDEFGHJKMNPQRS");
    assert_eq!(i.created_by(), Some(user()));
    assert!(i.labels().is_empty());
    assert!(i.comments().is_empty());
}

#[test]
fn created_at_round_trips_every_u64() {
    let i = IssueDoc::create(NewIssue {
        doc_id: doc(),
        workspace_id: ws(),
        project_id: prj(),
        title: "t".into(),
        priority: Priority::default(),
        created_by: user(),
        created_at: u64::MAX,
        body: None,
    })
    .unwrap();
    assert_eq!(i.created_at(), u64::MAX);
    assert_eq!(i.description(), "");
    assert_eq!(i.priority(), Priority::NoPriority);
}

#[test]
fn empty_body_leaves_an_empty_description() {
    let i = IssueDoc::create(NewIssue {
        doc_id: doc(),
        workspace_id: ws(),
        project_id: prj(),
        title: "t".into(),
        priority: Priority::Low,
        created_by: user(),
        created_at: 0,
        body: Some(String::new()),
    })
    .unwrap();
    assert_eq!(i.description(), "");
}

#[test]
fn moving_an_issue_rewrites_its_project() {
    let mut i = sample();
    let other = ProjectId::parse("prj_01JTHMH8QTZZZZZZZZZZZZZZZZ").unwrap();
    i.set_project(&other).unwrap();
    assert_eq!(i.project_id().unwrap().as_str(), "prj_01JTHMH8QTZZZZZZZZZZZZZZZZ");
    assert_eq!(i.title(), "fix login");
}

#[test]
fn description_replace_shrinks_and_clears() {
    let mut i = sample();
    i.set_description("x").unwrap();
    assert_eq!(i.description(), "x");
    i.set_description("").unwrap();
    assert_eq!(i.description(), "");
}

#[test]
fn assignees_and_labels_come_back_sorted() {
    let mut i = sample();
    let ub = UserId::from_key_text(&"b".repeat(64)).unwrap();
    let ua = UserId::from_key_text(&"a".repeat(64)).unwrap();
    i.add_assignee(&ub).unwrap();
    i.add_assignee(&ua).unwrap();
    i.add_assignee(&ub).unwrap();
    assert_eq!(i.assignees(), vec![ua, ub]);
    let l2 = LabelId::parse("lbl_01JTHMH8QTZZZZZZZZZZZZZZZZ").unwrap();
    let l1 = LabelId::parse("lbl_01JTHMH8QT0000000000000000").unwrap();
    i.add_label(&l2).unwrap();
    i.add_label(&l1).unwrap();
    assert_eq!(i.labels(), vec![l1, l2]);
}

#[test]
fn removing_an_absent_member_changes_nothing() {
    let mut i = sample();
    let u = UserId::from_key_text(&"c".repeat(64)).unwrap();
    i.remove_assignee(&u).unwrap();
    assert!(i.assignees().is_empty());
}

#[test]
fn comments_keep_author_and_order() {
    let mut i = sample();
    i.add_comment(&user(), 5, "one").unwrap();
    i.add_comment(&user(), 6, "two").unwrap();
    i.add_comment(&user(), 7, "three").unwrap();
    let cs = i.comments();
    let bodies: Vec<&str> = cs.iter().map(|c| c.body.as_str()).collect();
    assert_eq!(bodies, vec!["one", "two", "three"]);
    assert_eq!(cs[2].author, "a".repeat(64));
    assert!(cs[0].author_nick.is_none());
}

#[test]
fn a_document_without_the_layout_reports_missing_containers() {
    let mut i = IssueDoc::from_doc(loro::LoroDoc::new());
    assert_eq!(i.title(), "");
    assert_eq!(i.status(), "backlog");
    assert_eq!(i.created_at(), 0);
    assert!(i.doc_id().is_none());
    assert!(matches!(
        i.set_description("x"),
        Err(IssueError::Missing(IssueContainer::Description))
    ));
    assert!(matches!(
        i.add_assignee(&user()),
        Err(IssueError::Missing(IssueContainer::Assignees))
    ));
    let l = LabelId::parse("lbl_01JTHMH8QTABCDEFGHJKMNPQRS").unwrap();
    assert!(matches!(i.add_label(&l), Err(IssueError::Missing(IssueContainer::Labels))));
    assert!(matches!(
        i.add_comment(&user(), 1, "x"),
        Err(IssueError::Missing(IssueContainer::Comments))
    ));
    assert!(i.remove_assignee(&user()).is_ok());
    assert!(i.comments().is_empty());
}

#[test]
fn priorities_round_trip_through_text() {
    for p in [
        Priority::NoPriority,
        Priority::Low,
        Priority::Medium,
        Priority::High,
        Priority::Urgent,
    ] {
        assert_eq!(Priority::parse(p.as_str()), Some(p));
    }
    assert_eq!(Priority::parse("HIGH"), None);
    assert_eq!(Priority::High.as_str(), "high");
}

#[test]
fn ids_must_be_prefixed_crockford() {
    assert!(DocId::parse("iss_01JTHMH8QTABCDEFGHJKMNPQRS").is_some());
    assert!(DocId::parse("iss_01JTHMH8QTABCDEFGHJKMNPQR").is_none());
    assert!(DocId::parse("iss_01JTHMH8QTABCDEFGHJKMNPQRI").is_none());
    assert!(DocId::parse("prj_01JTHMH8QTABCDEFGHJKMNPQRS").is_none());
    assert!(LabelId::parse("lbl_01jthmh8qtabcdefghjkmnpqrs").is_none());
    assert!(ProjectId::parse("prj_01JTHMH8QTABCDEFGHJKMNPQRS").is_some());
}

#[test]
fn user_key_text_round_trips() {
    let u = UserId::from_key_text("00ff10ab00ff10ab00ff10ab00ff10ab00ff10ab00ff10ab00ff10ab00ff10ab")
        .unwrap();
    assert_eq!(u.0[0], 0x00);
    assert_eq!(u.0[1], 0xff);
    assert_eq!(u.0[2], 0x10);
    assert_eq!(u.0[3], 0xab);
    assert_eq!(
        u.key_text(),
        "00ff10ab00ff10ab00ff10ab00ff10ab00ff10ab00ff10ab00ff10ab00ff10ab"
    );
    assert!(UserId::from_key_text(&"A".repeat(64)).is_none());
    assert!(UserId::from_key_text(&"a".repeat(63)).is_none());
}

#[test]
fn a_detached_document_refuses_edits_and_keeps_its_fields() {
    let mut i = sample();
    i.commit();
    let first = i.head();
    i.set_title("second title").unwrap();
    i.commit();
    i.doc().checkout(&first).unwrap();
    assert!(i.doc().is_detached());
    assert_eq!(i.title(), "fix login");
    assert!(matches!(i.set_title("third"), Err(IssueError::Edit(_))));
    assert!(matches!(i.set_status("done"), Err(IssueError::Edit(_))));
    assert!(matches!(i.add_label(&LabelId::parse("lbl_01JTHMH8QTABCDEFGHJKMNPQRS").unwrap()), Err(IssueError::Edit(_))));
    assert_eq!(i.title(), "fix login");
    assert_eq!(i.status(), "backlog");
    assert!(i.labels().is_empty());
}
