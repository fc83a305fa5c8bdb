use job_hunter::dates::NullableSqliteDateTime;
use job_hunter::models::{Company, JobApplicationStatus, JobPostLocationType, SqliteBoolean};
use job_hunter::ui::{IconButton, Modal};

#[test]
fn location_type_names() {
    assert_eq!(JobPostLocationType::Onsite.name(), "Onsite");
    assert_eq!(JobPostLocationType::Unknown.name(), "Unknown");
    assert_eq!(JobPostLocationType::Onsite.label(), "On-site");
    assert_eq!(JobPostLocationType::Remote.label(), "Remote");
    assert_eq!(JobPostLocationType::from_name("Hybrid"), Some(JobPostLocationType::Hybrid));
    assert_eq!(JobPostLocationType::from_name("hybrid"), None);
    assert_eq!(JobPostLocationType::from_name("On-site"), None);
}

#[test]
fn status_names() {
    assert_eq!(JobApplicationStatus::Withdrawn.name(), "Withdrawn");
    assert_eq!(JobApplicationStatus::New.name(), "New");
    assert_eq!(JobApplicationStatus::from_name("Offer"), Some(JobApplicationStatus::Offer));
    assert_eq!(JobApplicationStatus::from_name("Ghosted"), None);
}

#[test]
fn stored_flags() {
    assert_eq!(SqliteBoolean::from(0), SqliteBoolean(false));
    assert_eq!(SqliteBoolean::from(1), SqliteBoolean(true));
    assert_eq!(SqliteBoolean(true).to_int(), 1);
    assert_eq!(SqliteBoolean(false).to_int(), 0);
}

#[test]
fn icon_button_builder() {
    let b = IconButton::new("pen").label("Edit").solid();
    assert_eq!(b.icon_name, "pen");
    assert_eq!(b.label, Some("Edit"));
    assert!(b.solid);
    let plain = IconButton::new("trash");
    assert_eq!(plain.label, None);
    assert!(!plain.solid);
    assert_ne!(Modal::Hidden, Modal::SettingsModal);
}

#[test]
fn shown_texts() {
    assert_eq!(JobPostLocationType::Onsite.to_string(), "On-site");
    assert_eq!(JobPostLocationType::Hybrid.to_string(), "Hybrid");
    assert_eq!(JobApplicationStatus::Interview.to_string(), "Interview");
    let c = Company {
        id: 1,
        name: "Acme".to_string(),
        careers_url: None,
        hidden: SqliteBoolean(false),
    };
    assert_eq!(c.to_string(), "Acme");
}

#[test]
fn stored_instants_as_dates() {
    assert_eq!(NullableSqliteDateTime::from_timestamp(Some(1_717_977_600 + 3600)), NullableSqliteDateTime(Some(19_884)));
    assert_eq!(NullableSqliteDateTime::from_timestamp(Some(-1)), NullableSqliteDateTime(Some(-1)));
    assert_eq!(NullableSqliteDateTime::from_timestamp(None), NullableSqliteDateTime(None));
    assert_eq!(NullableSqliteDateTime::from_timestamp(Some(i64::MIN)), NullableSqliteDateTime(None));
}
