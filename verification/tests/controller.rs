use candouble::can::CANMessage;
use candouble::controller::ImposterList;
use candouble::imposter::Imposter;
use candouble::response::ResponseTemplate;
use candouble::stub::Stub;

fn plain(id: u32, response: &str) -> Imposter {
    Imposter::new(
        id,
        vec![Stub::new(vec![], vec![ResponseTemplate::new(response.to_string(), vec![], None)])],
    )
}

fn ids(list: &ImposterList) -> Vec<u32> {
    list.get_all().iter().map(|i| i.id).collect()
}

#[test]
fn upsert_differentiates_imposters_with_different_ids() {
    let mut list = ImposterList::new();

    list.upsert(Imposter::new(1, vec![]));
    list.upsert(Imposter::new(2, vec![]));

    assert_eq!(2, list.get_all().len());
}

#[test]
fn upsert_replaces_existing_imposter_with_same_id() {
    let mut list = ImposterList::new();

    list.upsert(Imposter::new(1, vec![]));
    list.upsert(Imposter::new(1, vec![]));

    assert_eq!(1, list.get_all().len());
}

#[test]
fn new_list_is_empty() {
    let list = ImposterList::new();
    assert_eq!(0, list.get_all().len());
    assert!(list.get_by_id(0).is_none());
}

#[test]
fn upsert_says_whether_the_identifier_was_new() {
    let mut list = ImposterList::new();
    assert_eq!(true, list.upsert(Imposter::new(1, vec![])));
    assert_eq!(true, list.upsert(Imposter::new(2, vec![])));
    assert_eq!(false, list.upsert(Imposter::new(1, vec![])));
    assert_eq!(false, list.upsert(Imposter::new(2, vec![])));
    assert_eq!(true, list.upsert(Imposter::new(3, vec![])));
    assert_eq!(3, list.get_all().len());
}

#[test]
fn upsert_replaces_the_entry_and_keeps_the_others() {
    let mut list = ImposterList::new();
    list.upsert(plain(1, "0x10"));
    list.upsert(plain(2, "0x20"));
    list.upsert(plain(3, "0x30"));
    assert_eq!(vec![1, 2, 3], ids(&list));

    assert_eq!(false, list.upsert(Imposter::new(1, vec![])));
    assert_eq!(vec![2, 3, 1], ids(&list));
    assert_eq!(0, list.get_by_id(1).unwrap().stubs.len());
    assert_eq!(1, list.get_by_id(2).unwrap().stubs.len());
    assert_eq!(1, list.get_by_id(3).unwrap().stubs.len());

    assert_eq!(false, list.upsert(plain(3, "0x31")));
    assert_eq!(vec![2, 1, 3], ids(&list));
}

#[test]
fn delete_removes_exactly_the_entry() {
    let mut list = ImposterList::new();
    list.upsert(plain(1, "0x10"));
    list.upsert(plain(2, "0x20"));
    list.upsert(plain(3, "0x30"));

    assert_eq!(true, list.delete_by_id(2));
    assert_eq!(vec![1, 3], ids(&list));
    assert!(list.get_by_id(2).is_none());
    assert!(list.get_by_id(1).is_some());
    assert!(list.get_by_id(3).is_some());
}

#[test]
fn delete_of_an_absent_identifier_changes_nothing() {
    let mut list = ImposterList::new();
    assert_eq!(false, list.delete_by_id(1));
    list.upsert(plain(1, "0x10"));
    list.upsert(plain(2, "0x20"));
    assert_eq!(false, list.delete_by_id(7));
    assert_eq!(vec![1, 2], ids(&list));
    assert_eq!(true, list.delete_by_id(1));
    assert_eq!(false, list.delete_by_id(1));
    assert_eq!(vec![2], ids(&list));
}

#[test]
fn get_by_id_finds_the_entry() {
    let mut list = ImposterList::new();
    list.upsert(plain(1, "0x10"));
    list.upsert(plain(3, "0x30"));
    assert_eq!(3, list.get_by_id(3).unwrap().id);
    assert_eq!(1, list.get_by_id(1).unwrap().id);
    assert!(list.get_by_id(2).is_none());
}

#[test]
fn copies_do_not_touch_the_live_entry() {
    let mut list = ImposterList::new();
    list.upsert(Imposter::new(
        1,
        vec![Stub::new(
            vec![],
            vec![
                ResponseTemplate::new("1".to_string(), vec![], None),
                ResponseTemplate::new("2".to_string(), vec![], None),
            ],
        )],
    ));
    let message = CANMessage::new();
    let mut copy = list.get_by_id(1).unwrap();
    assert_eq!(1, copy.responses_to_message(&message).unwrap().messages[0].id);
    assert_eq!(2, copy.responses_to_message(&message).unwrap().messages[0].id);
    let mut all = list.get_all();
    assert_eq!(1, all[0].responses_to_message(&message).unwrap().messages[0].id);
    assert_eq!(0, list.get_by_id(1).unwrap().received_messages().len());
    let live = list.do_with_imposter_by_id(1, |imposter| {
        imposter.responses_to_message(&message).unwrap().messages[0].id
    });
    assert_eq!(Some(1), live);
}

#[test]
fn do_with_imposter_by_id_changes_the_live_entry() {
    let mut list = ImposterList::new();
    list.upsert(plain(1, "0x10"));
    list.upsert(plain(2, "0x20"));
    let message = CANMessage::with_content(5, 0, &[]);
    let mut sent: Vec<u64> = Vec::new();
    list.do_with_imposter_by_id(2, |imposter| {
        for response in imposter.responses_to_message(&message).unwrap().messages {
            sent.push(response.id);
        }
    });
    assert_eq!(vec![0x20], sent);
    assert_eq!(1, list.get_by_id(2).unwrap().received_messages().len());
    assert_eq!(0, list.get_by_id(1).unwrap().received_messages().len());
    assert_eq!(vec![1, 2], ids(&list));
}

#[test]
fn do_with_imposter_by_id_runs_nothing_for_an_absent_identifier() {
    let mut list = ImposterList::new();
    list.upsert(plain(1, "0x10"));
    let mut ran = false;
    let outcome = list.do_with_imposter_by_id(2, |_imposter| {
        ran = true;
    });
    assert_eq!(None, outcome);
    assert_eq!(false, ran);
    assert_eq!(vec![1], ids(&list));
}
