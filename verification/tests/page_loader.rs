use my_service_bus::date_time::DateTimeAsMicroseconds;
use my_service_bus::messages_page::{MessagesPage, MySbMessage, MySbMessageContent, MESSAGES_IN_PAGE};
use my_service_bus::operations::page_loader::{
    compile_message_with_missing_state, create_with_all_missing, generate_not_loaded_messages, get_load_page_interval,
    page_restore_step, sub_page_after_load, PageRestoreStep,
    init_page_to_cache_plan, next_page_load_step, restore_page_retries, PageInitPlan, PageLoadStep,
};
use my_service_bus::persistence::error::PersistenceError;
use my_service_bus::persistence::zip::decompress_payload;

#[test]
fn test_first_page() {
    let min_queue_msg_id = 0;
    let topic_msg_id = 5;

    let page_id = 0;

    let (from_id, to_id) = get_load_page_interval(min_queue_msg_id, topic_msg_id, page_id);

    assert_eq!(0, from_id);
    assert_eq!(5, to_id);
}

#[test]
fn test_second_page_we_have_whole_page_to_load() {
    let min_queue_msg_id = 5;
    let topic_msg_id = MESSAGES_IN_PAGE * 5 + 5;

    let page_id = 1;

    let (from_id, to_id) = get_load_page_interval(min_queue_msg_id, topic_msg_id, page_id);

    assert_eq!(100_000, from_id);
    assert_eq!(199_999, to_id);
}

#[test]
fn test_second_page_we_are_on_that_page() {
    let min_queue_msg_id = 5;
    let topic_msg_id = 155_555;

    let page_id = 1;

    let (from_id, to_id) = get_load_page_interval(min_queue_msg_id, topic_msg_id, page_id);

    assert_eq!(100_000, from_id);
    assert_eq!(155_555, to_id);
}

#[test]
fn test_we_have_messages_within_page() {
    let min_queue_msg_id = 144_444;
    let topic_msg_id = 155_555;

    let page_id = 1;

    let (from_id, to_id) = get_load_page_interval(min_queue_msg_id, topic_msg_id, page_id);

    assert_eq!(144_444, from_id);
    assert_eq!(155_555, to_id);
}

#[test]
fn test_we_have_first_message_within_page_last_message_next_pages() {
    let min_queue_msg_id = 144_444;
    let topic_msg_id = 555_555;

    let page_id = 1;

    let (from_id, to_id) = get_load_page_interval(min_queue_msg_id, topic_msg_id, page_id);

    assert_eq!(144_444, from_id);
    assert_eq!(199_999, to_id);
}

#[test]
fn load_interval_stays_within_the_page() {
    let (from_id, to_id) = get_load_page_interval(0, 10 * MESSAGES_IN_PAGE, 3);
    assert_eq!(300_000, from_id);
    assert_eq!(399_999, to_id);
    assert!(from_id >= 3 * MESSAGES_IN_PAGE && to_id <= 4 * MESSAGES_IN_PAGE - 1);
}

#[test]
fn not_loaded_messages_cover_the_half_open_interval() {
    let messages = generate_not_loaded_messages(7, 10);
    assert_eq!(3, messages.len());
    for (k, message) in messages.iter().enumerate() {
        match message {
            MySbMessage::NotLoaded { id } => assert_eq!(7 + k as i64, *id),
            _ => panic!("a generated message must be marked as not loaded"),
        }
    }
    assert_eq!(0, generate_not_loaded_messages(10, 10).len());
    assert_eq!(0, generate_not_loaded_messages(10, 3).len());
}

#[test]
fn compiled_messages_are_keyed_by_id_and_the_later_wins() {
    let time = DateTimeAsMicroseconds::new(1);
    let messages = vec![
        MySbMessageContent { id: 2, content: vec![1], time },
        MySbMessageContent { id: 1, content: vec![2], time },
        MySbMessageContent { id: 2, content: vec![3], time },
    ];
    let compiled = compile_message_with_missing_state(messages);
    assert_eq!(2, compiled.len());
    match compiled.get(&2) {
        Some(MySbMessage::Loaded(content)) => assert_eq!(vec![3u8], content.content),
        _ => panic!("message 2 must be loaded"),
    }
    match compiled.get(&1) {
        Some(MySbMessage::Loaded(content)) => assert_eq!(vec![2u8], content.content),
        _ => panic!("message 1 must be loaded"),
    }
}

#[test]
fn page_needed_from_its_start_is_loaded_whole() {
    let plan = init_page_to_cache_plan(Some(150_000), 400_000, 2);
    assert_eq!(PageInitPlan::LoadFromStorage { from: 0, to: 0 }, plan);
    let plan = init_page_to_cache_plan(Some(200_000), 400_000, 2);
    assert_eq!(PageInitPlan::LoadFromStorage { from: 0, to: 0 }, plan);
}

#[test]
fn page_needed_from_inside_is_loaded_from_that_id() {
    let plan = init_page_to_cache_plan(Some(250_000), 260_000, 2);
    assert_eq!(PageInitPlan::LoadFromStorage { from: 250_000, to: 260_000 }, plan);
}

#[test]
fn page_no_queue_needs_is_marked_not_loaded() {
    let plan = init_page_to_cache_plan(None, 260_000, 2);
    assert_eq!(PageInitPlan::MarkNotLoaded { from: 200_000, to: 260_000 }, plan);
}

fn unpacking_error() -> PersistenceError {
    match decompress_payload(&[1u8, 2u8, 3u8]) {
        Err(e) => PersistenceError::from(e),
        Ok(_) => panic!("three bytes are no zip archive"),
    }
}

#[test]
fn unpacking_failure_gives_the_page_up_at_once() {
    assert_eq!(PageLoadStep::GiveUp, next_page_load_step(0, &unpacking_error()));
    assert!(!restore_page_retries(&unpacking_error()));
}

#[test]
fn other_failures_are_retried_five_times() {
    let error = PersistenceError::GrpcClientIsNotInitialized("load_page".to_string());
    assert_eq!(PageLoadStep::Retry(1), next_page_load_step(0, &error));
    assert_eq!(PageLoadStep::Retry(4), next_page_load_step(3, &error));
    assert_eq!(PageLoadStep::GiveUp, next_page_load_step(4, &error));
    assert!(restore_page_retries(&error));
    let error = PersistenceError::InvalidProtobufPayload("garbage".to_string());
    assert_eq!(PageLoadStep::Retry(1), next_page_load_step(0, &error));
    assert!(!restore_page_retries(&error));
}

#[test]
fn restoring_a_page_retries_only_failures_to_reach_the_service() {
    assert!(restore_page_retries(&PersistenceError::from(tonic::Status::unavailable("persistence is restarting"))));
    assert_eq!(PageLoadStep::Retry(3), next_page_load_step(2, &PersistenceError::from(tonic::Status::deadline_exceeded("slow"))));
    assert!(restore_page_retries(&PersistenceError::CanNotInitializeGrpcService));
    assert!(!restore_page_retries(&PersistenceError::CompressedPageReaderError("bad page".to_string())));
    let error = PersistenceError::CompressedPageReaderError("bad page".to_string());
    assert_eq!(PageLoadStep::Retry(1), next_page_load_step(0, &error));
}

#[test]
fn failed_load_marks_every_id_of_the_range_as_lost() {
    let page = sub_page_after_load(5, 7, None);
    let ids: Vec<i64> = page.keys().copied().collect();
    assert_eq!(vec![5, 6, 7], ids);
    assert!(page.values().all(|m| matches!(m, MySbMessage::Missing { .. })));
    assert!(matches!(page.get(&6), Some(MySbMessage::Missing { id: 6 })));
    assert!(create_with_all_missing(3, 2).is_empty());
    assert_eq!(1, create_with_all_missing(i64::MAX, i64::MAX).len());
}

#[test]
fn successful_load_keeps_the_loaded_messages() {
    let loaded = vec![MySbMessageContent { id: 6, content: vec![9], time: DateTimeAsMicroseconds::new(0) }];
    let page = sub_page_after_load(5, 7, Some(loaded));
    assert_eq!(1, page.len());
    assert!(matches!(page.get(&6), Some(MySbMessage::Loaded(m)) if m.content == vec![9]));
}

#[test]
fn restoring_a_page_puts_an_empty_page_after_giving_up() {
    let not_initialized = || Err(PersistenceError::GrpcClientIsNotInitialized("load_page".to_string()));
    assert!(matches!(page_restore_step(3, 0, not_initialized()), PageRestoreStep::Retry(1)));
    assert!(matches!(page_restore_step(3, 3, not_initialized()), PageRestoreStep::Retry(4)));
    match page_restore_step(3, 4, not_initialized()) {
        PageRestoreStep::Restore(page) => {
            assert_eq!(3, page.page_id);
            assert!(page.messages.is_empty());
        }
        PageRestoreStep::Retry(_) => panic!("the fifth failed attempt gives the page up"),
    }
    match page_restore_step(3, 0, Err(unpacking_error())) {
        PageRestoreStep::Restore(page) => assert!(page.messages.is_empty() && page.page_id == 3),
        PageRestoreStep::Retry(_) => panic!("a payload that cannot be unpacked is given up at once"),
    }
    let mut loaded = MessagesPage::new(3);
    loaded.add(MySbMessage::Missing { id: 300_001 });
    match page_restore_step(3, 2, Ok(loaded)) {
        PageRestoreStep::Restore(page) => assert_eq!(1, page.messages.len()),
        PageRestoreStep::Retry(_) => panic!("a page that came is restored"),
    }
}
