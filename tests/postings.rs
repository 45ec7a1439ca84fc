use searchine::{FrequencyPosting, FrequencyPostingsList, Posting, PostingsList};

#[test]
fn test_frequency_posting() {
    let posting = FrequencyPosting::new(1, 5);
    assert_eq!(posting.doc_id(), 1);
    assert_eq!(posting.frequency(), 5);
}

#[test]
fn test_frequency_postings_list() {
    let mut postings_list = FrequencyPostingsList::new();
    postings_list.add(FrequencyPosting::new(1, 5));
    postings_list.add(FrequencyPosting::new(2, 3));
    postings_list.add(FrequencyPosting::new(3, 7));

    assert_eq!(postings_list.len(), 3);

    let posting = postings_list.get(2).unwrap();
    assert_eq!(posting.doc_id(), 2);
    assert_eq!(posting.frequency(), 3);

    postings_list.remove(2);
    assert_eq!(postings_list.len(), 2);
    assert!(postings_list.get(2).is_none());
}

#[test]
fn second_add_for_same_document_is_ignored() {
    let mut list = FrequencyPostingsList::new();
    list.add(FrequencyPosting::new(5, 1));
    list.add(FrequencyPosting::new(5, 99));
    assert_eq!(list.len(), 1);
    assert_eq!(list.get(5).unwrap().frequency(), 1);
}

#[test]
fn empty_list_has_nothing() {
    let list = FrequencyPostingsList::new();
    assert_eq!(list.len(), 0);
    assert!(list.get(0).is_none());
}

#[test]
fn removing_unknown_document_changes_nothing() {
    let mut list = FrequencyPostingsList::new();
    list.add(FrequencyPosting::new(1, 4));
    list.remove(7);
    assert_eq!(list.len(), 1);
    assert_eq!(list.get(1).unwrap().frequency(), 4);
}

#[test]
fn removed_document_can_be_added_again() {
    let mut list = FrequencyPostingsList::new();
    list.add(FrequencyPosting::new(3, 2));
    list.remove(3);
    list.add(FrequencyPosting::new(3, 8));
    assert_eq!(list.len(), 1);
    assert_eq!(list.get(3).unwrap().frequency(), 8);
}

#[test]
fn add_occurrence_counts_one_more() {
    let mut posting = FrequencyPosting::new(4, 2);
    posting.add_occurrence();
    assert_eq!(posting.frequency(), 3);
    assert_eq!(posting.doc_id(), 4);
}

#[test]
fn postings_equal_by_document_only() {
    assert!(FrequencyPosting::new(2, 1) == FrequencyPosting::new(2, 50));
    assert!(FrequencyPosting::new(2, 1) != FrequencyPosting::new(3, 1));
}
