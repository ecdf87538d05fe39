use umi::students_single::StudentRecord;

#[test]
fn student_single_record_works() {
    let mut record = StudentRecord::new();
    record.add_student("Jane".to_string());
    assert!(record.has_student("Jane".to_string()));
}

#[test]
fn a_single_record_answers_for_the_students_it_has() {
    let mut record = StudentRecord::new();
    assert!(!record.has_student("Jane".to_string()));
    record.add_student("Jane".to_string());
    record.add_student("John".to_string());
    assert!(record.has_student("John".to_string()));
    assert!(!record.has_student("Jan".to_string()));
}
