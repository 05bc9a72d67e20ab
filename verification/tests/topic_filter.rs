use mqtt_broker::topic_filter::{TopicFilter, TopicFilterError};

#[test]
fn plus1() {
    let filter = TopicFilter::new("+").unwrap();
    assert!(filter.matches("/finance") == false);
}

#[test]
fn plus2() {
    let filter = TopicFilter::new("/+").unwrap();
    assert!(filter.matches("/finance") == true);
}

#[test]
fn plus3() {
    let filter = TopicFilter::new("+/+").unwrap();
    assert!(filter.matches("/finance") == true);
}

#[test]
fn plus4() {
    let filter = TopicFilter::new("sport/tennis/+").unwrap();
    assert!(filter.matches("sport/tennis/player1") == true);
}

#[test]
fn plus5() {
    let filter = TopicFilter::new("sport/tennis/+").unwrap();
    assert!(filter.matches("sport/tennis/player2") == true);
}

#[test]
fn plus6() {
    let filter = TopicFilter::new("sport/tennis/+").unwrap();
    assert!(filter.matches("sport/tennis/player1/ranking") == false);
}

#[test]
fn plus7() {
    let filter = TopicFilter::new("sport/+").unwrap();
    assert!(filter.matches("sport") == false);
}

#[test]
fn plus8() {
    let filter = TopicFilter::new("sport/+").unwrap();
    assert!(filter.matches("sport/") == true);
}

#[test]
fn multi1() {
    let filter = TopicFilter::new("sport/tennis/player1/#").unwrap();
    assert!(filter.matches("sport/tennis/player1") == true);
}

#[test]
fn multi2() {
    let filter = TopicFilter::new("sport/tennis/player1/#").unwrap();
    assert!(filter.matches("sport/tennis/player1/ranking") == true);
}

#[test]
fn multi3() {
    let filter = TopicFilter::new("sport/tennis/player1/#").unwrap();
    assert!(filter.matches("sport/tennis/player1/score/wimbledon") == true);
}

#[test]
fn multi4() {
    let filter = TopicFilter::new("sport/tennis/player1/#").unwrap();
    assert!(filter.matches("sport/tennis") == false);
}

#[test]
fn multi5() {
    let filter = TopicFilter::new("sport/#").unwrap();
    assert!(filter.matches("sport") == true);
}

#[test]
fn multi6() {
    let filter = TopicFilter::new("#").unwrap();
    assert!(filter.matches("what/ever/") == true);
}

#[test]
fn multi7() {
    let filter = TopicFilter::new("#").unwrap();
    assert!(filter.matches("") == true);
}

#[test]
fn multi_level_combined() {
    match TopicFilter::new("sport/tennis#") {
        Ok(_) => assert!(false),
        Err(_) => assert!(true),
    }
}

#[test]
fn multi_level_not_last() {
    match TopicFilter::new("sport/tennis/#/ranking") {
        Ok(_) => assert!(false),
        Err(_) => assert!(true),
    }
}

#[test]
fn single_combined() {
    match TopicFilter::new("sport+") {
        Ok(_) => assert!(false),
        Err(_) => assert!(true),
    }
}

#[test]
fn single_combined_first() {
    match TopicFilter::new("sport+/foobar") {
        Ok(_) => assert!(false),
        Err(_) => assert!(true),
    }
}

#[test]
fn normal_single() {
    match TopicFilter::new("sport/+/player1") {
        Ok(_) => assert!(true),
        Err(_) => assert!(false),
    }
}

#[test]
fn single_single() {
    match TopicFilter::new("+") {
        Ok(_) => assert!(true),
        Err(_) => assert!(false),
    }
}

#[test]
fn single_multi_combined() {
    match TopicFilter::new("+/tennis/#") {
        Ok(_) => assert!(true),
        Err(_) => assert!(false),
    }
}

#[test]
fn normal() {
    match TopicFilter::new("sport/tennis/player1/score/wimbledon") {
        Ok(_) => assert!(true),
        Err(_) => assert!(false),
    }
}

#[test]
fn single_multi_level() {
    match TopicFilter::new("#") {
        Ok(_) => assert!(true),
        Err(_) => assert!(false),
    }
}

#[test]
fn single_seperator_multi_level() {
    match TopicFilter::new("/#") {
        Ok(_) => assert!(true),
        Err(_) => assert!(false),
    }
}

#[test]
fn multi_level() {
    match TopicFilter::new("/foobar/#") {
        Ok(_) => assert!(true),
        Err(_) => assert!(false),
    }
}

#[test]
fn multi_mutli_level() {
    match TopicFilter::new("sport/tennis/#") {
        Ok(_) => assert!(true),
        Err(_) => assert!(false),
    }
}

#[test]
fn multi_level_not_last_message() {
    match TopicFilter::new("sport/#/ranking") {
        Err(TopicFilterError::ParseError(m)) => {
            assert_eq!(m, "MultiLevelWildcard is only supported as the last segment")
        },
        Ok(_) => assert!(false),
    }
}

#[test]
fn wildcard_in_level_message() {
    match TopicFilter::new("sport/ten+nis") {
        Err(TopicFilterError::ParseError(m)) => assert_eq!(m, "A segment can't contain '+' nor '#'."),
        Ok(_) => assert!(false),
    }
}

#[test]
fn literal_filter_matches_only_its_name() {
    let filter = TopicFilter::new("a/b").unwrap();
    assert!(filter.matches("a/b"));
    assert!(!filter.matches("a/c"));
    assert!(!filter.matches("a/b/c"));
    assert!(!filter.matches("a"));
}
