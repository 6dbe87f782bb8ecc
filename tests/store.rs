use recommendations::{parse_start, settle_deposit, Contract, DepositError, PageError, UserInfo};

fn info(message: &str) -> UserInfo {
    UserInfo::new(None, None, Some(message.to_string()))
}

fn ids(page: &[(String, UserInfo)]) -> Vec<String> {
    page.iter().map(|(k, _)| k.clone()).collect()
}

fn filled(names: &[&str]) -> Contract {
    let mut c = Contract::new();
    for n in names {
        assert!(c.upsert(n.to_string(), info(n)));
    }
    c
}

#[test]
fn upsert_twice_keeps_count_and_takes_last_payload() {
    let mut c = Contract::new();
    assert!(c.upsert("bob".to_string(), info("first")));
    assert_eq!(c.total_recommendations(), 1);
    assert!(!c.upsert("bob".to_string(), info("second")));
    assert_eq!(c.total_recommendations(), 1);
    assert_eq!(c.get_recommendation(&"bob".to_string()), Some(info("second")));
}

#[test]
fn absent_and_empty_payload_differ() {
    let mut c = Contract::new();
    c.upsert("carol".to_string(), UserInfo::default());
    assert_eq!(c.get_recommendation(&"carol".to_string()), Some(UserInfo::new(None, None, None)));
    assert_eq!(c.get_recommendation(&"dave".to_string()), None);
}

#[test]
fn distinct_submissions_keep_their_order() {
    let names = ["zed", "amy", "kim", "bea"];
    let c = filled(&names);
    let page = c.list_range(Some(0), Some(4)).unwrap();
    assert_eq!(ids(&page), vec!["zed", "amy", "kim", "bea"]);
    assert_eq!(page[2].1, info("kim"));
}

#[test]
fn resubmission_does_not_move_an_entry() {
    let mut c = filled(&["a", "b", "c"]);
    c.upsert("a".to_string(), info("again"));
    let page = c.list_range(None, None).unwrap();
    assert_eq!(ids(&page), vec!["a", "b", "c"]);
    assert_eq!(page[0].1, info("again"));
}

#[test]
fn pages_over_a_partition_concatenate_to_the_whole() {
    let c = filled(&["p0", "p1", "p2", "p3", "p4", "p5", "p6"]);
    let whole = c.list_range(Some(0), Some(7)).unwrap();
    let mut joined = Vec::new();
    for (s, e) in [(0u64, 2u64), (2, 3), (3, 7)] {
        joined.extend(c.list_range(Some(s), Some(e - s)).unwrap());
    }
    assert_eq!(joined, whole);
    assert_eq!(whole.len(), 7);
}

#[test]
fn start_at_end_is_out_of_range() {
    let c = filled(&["x", "y"]);
    assert_eq!(c.list_range(Some(2), None), Err(PageError::OutOfRange));
    assert_eq!(c.list_range(Some(2), Some(0)), Err(PageError::OutOfRange));
    assert_eq!(c.list_range(Some(9), Some(3)), Err(PageError::OutOfRange));
}

#[test]
fn empty_store_gives_empty_page_for_any_start() {
    let c = Contract::new();
    assert_eq!(c.list_range(Some(0), None), Ok(vec![]));
    assert_eq!(c.list_range(Some(42), Some(7)), Ok(vec![]));
    assert_eq!(c.get_recommendations(Some("not a number".to_string()), None), Ok(vec![]));
}

#[test]
fn oversized_limit_is_clamped() {
    let c = filled(&["a", "b", "c"]);
    assert_eq!(c.list_range(Some(0), Some(3 + 100)).unwrap().len(), 3);
    assert_eq!(ids(&c.list_range(Some(1), Some(u64::MAX)).unwrap()), vec!["b", "c"]);
}

#[test]
fn zero_limit_gives_empty_page() {
    let c = filled(&["a", "b"]);
    assert_eq!(c.list_range(Some(1), Some(0)), Ok(vec![]));
}

#[test]
fn absent_start_and_limit_list_everything() {
    let c = filled(&["a", "b", "c"]);
    assert_eq!(ids(&c.list_range(None, None).unwrap()), vec!["a", "b", "c"]);
    assert_eq!(ids(&c.list_range(Some(1), None).unwrap()), vec!["b", "c"]);
    assert_eq!(ids(&c.list_range(None, Some(2)).unwrap()), vec!["a", "b"]);
}

#[test]
fn text_start_is_read_as_decimal() {
    let c = filled(&["a", "b", "c"]);
    assert_eq!(ids(&c.get_recommendations(Some("1".to_string()), Some(1)).unwrap()), vec!["b"]);
    assert_eq!(ids(&c.get_recommendations(None, None).unwrap()), vec!["a", "b", "c"]);
    assert_eq!(c.get_recommendations(Some("3".to_string()), None), Err(PageError::OutOfRange));
    assert_eq!(c.get_recommendations(Some("1x".to_string()), None), Err(PageError::BadStartFormat));
    assert_eq!(c.get_recommendations(Some("".to_string()), None), Err(PageError::BadStartFormat));
}

#[test]
fn parse_start_values() {
    assert_eq!(parse_start("0"), Ok(0));
    assert_eq!(parse_start("007"), Ok(7));
    assert_eq!(parse_start("18446744073709551615"), Ok(u64::MAX));
    assert_eq!(parse_start("99999999999999999999999"), Ok(u64::MAX));
    assert_eq!(parse_start("-1"), Err(PageError::BadStartFormat));
    assert_eq!(parse_start("+1"), Err(PageError::BadStartFormat));
    assert_eq!(parse_start(" 1"), Err(PageError::BadStartFormat));
}

#[test]
fn refund_is_the_surplus() {
    assert_eq!(settle_deposit(100, 1, 150), Ok(50));
    assert_eq!(settle_deposit(100, 3, 300), Ok(0));
    assert_eq!(settle_deposit(0, 7, 5), Ok(5));
    let price: u128 = 10_000_000_000_000_000_000;
    assert_eq!(settle_deposit(250, price, 250 * price + 12), Ok(12));
}

#[test]
fn short_deposit_is_refused_with_the_cost() {
    assert_eq!(settle_deposit(100, 2, 199), Err(DepositError::InsufficientDeposit { required: 200 }));
    assert_eq!(settle_deposit(1, 1, 0), Err(DepositError::InsufficientDeposit { required: 1 }));
}

#[test]
fn refused_submission_adds_nothing() {
    let mut c = Contract::new();
    let r = c.recommend("eve".to_string(), info("hi"), 100, 1, 99);
    assert_eq!(r, Err(DepositError::InsufficientDeposit { required: 100 }));
    assert_eq!(c.total_recommendations(), 0);
    assert_eq!(c.get_recommendation(&"eve".to_string()), None);
}

#[test]
fn alice_submits_and_is_refunded() {
    let mut c = Contract::default();
    let payload = UserInfo::new(Some("Alice".to_string()), Some("RAEN".to_string()), Some("yes".to_string()));
    assert_eq!(c.recommend("alice".to_string(), payload.clone(), 100, 1, 150), Ok(50));
    assert_eq!(c.total_recommendations(), 1);
    assert_eq!(c.list_range(Some(0), Some(1)), Ok(vec![("alice".to_string(), payload.clone())]));
    assert_eq!(c.list_range(Some(1), Some(1)), Err(PageError::OutOfRange));
}

#[test]
fn copied_record_is_equal() {
    let p = UserInfo::new(Some("n".to_string()), None, Some("m".to_string()));
    assert_eq!(p.copied(), p);
}
