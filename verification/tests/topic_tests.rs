use bevy_mqtt::topic::topic_regex_pattern;
use bevy_mqtt::{SubscribeTopic, SubscribeTopicError};
use rumqttc::QoS;

#[test]
fn test_topic_matches() {
    let subscribe = SubscribeTopic::new(&"hello/+/world".to_string(), QoS::AtMostOnce).unwrap();
    assert!(subscribe.matches("hello/1/world"));
}

#[test]
fn test_invalid_topic_pattern() {
    let result = SubscribeTopic::new("hello/[invalid", QoS::AtMostOnce);
    assert!(result.is_ok());

    let subscribe = result.unwrap();
    assert!(subscribe.matches("hello/[invalid"));
    assert!(!subscribe.matches("hello/invalid"));
}

#[test]
fn test_topic_regex_escaping() {
    let subscribe = SubscribeTopic::new("test/topic.with*special[chars]", QoS::AtMostOnce).unwrap();
    assert!(subscribe.matches("test/topic.with*special[chars]"));
    assert!(!subscribe.matches("test/topicXwithXspecialXchars"));

    let subscribe_wildcard = SubscribeTopic::new("test/+/special.*", QoS::AtMostOnce).unwrap();
    assert!(subscribe_wildcard.matches("test/anything/special.*"));
    assert!(!subscribe_wildcard.matches("test/anything/specialXX"));
}

#[test]
fn readme_bracket_filter_matches_literally() {
    let s = SubscribeTopic::new("sensor/data[temp]/+", QoS::AtMostOnce).unwrap();
    assert!(s.matches("sensor/data[temp]/kitchen"));
    assert!(!s.matches("sensor/dataXtemp]/kitchen"));
}

#[test]
fn pattern_escapes_and_translates_wildcards() {
    assert_eq!(topic_regex_pattern("a/+/b"), "^a/[^/]*/b$");
    assert_eq!(topic_regex_pattern("a/#"), "^a(/.*)?$");
    assert_eq!(topic_regex_pattern("#"), "^.*$");
    assert_eq!(topic_regex_pattern("a#"), "^a.*$");
    assert_eq!(topic_regex_pattern("x.y*z"), "^x\\.y\\*z$");
    assert_eq!(topic_regex_pattern(""), "^$");
    assert_eq!(
        topic_regex_pattern(".^$*?()[]{}\\|"),
        "^\\.\\^\\$\\*\\?\\(\\)\\[\\]\\{\\}\\\\\\|$"
    );
    assert_eq!(topic_regex_pattern("plain/topic"), "^plain/topic$");
}

#[test]
fn single_level_wildcard_takes_one_level() {
    let s = SubscribeTopic::new("a/+/c", QoS::AtLeastOnce).unwrap();
    assert!(s.matches("a/b/c"));
    assert!(s.matches("a//c"));
    assert!(!s.matches("a/b/x/c"));
    assert!(!s.matches("xa/b/c"));
}

#[test]
fn multi_level_wildcard_matches_deeper_levels() {
    let s = SubscribeTopic::new("a/#", QoS::ExactlyOnce).unwrap();
    assert!(s.matches("a/b"));
    assert!(s.matches("a/b/c/d"));
    assert!(s.matches("a/"));
    assert!(s.matches("a"));
    assert!(!s.matches("ab"));
    assert!(!s.matches("b/c"));
}

#[test]
fn plain_filter_matches_only_itself() {
    let s = SubscribeTopic::new("home/kitchen", QoS::AtMostOnce).unwrap();
    assert!(s.matches("home/kitchen"));
    assert!(!s.matches("home/kitchen/x"));
    assert!(!s.matches("home/kitchenx"));
    assert!(!s.matches("my/home/kitchen"));
}

#[test]
fn getters_give_back_filter_and_qos() {
    let s = SubscribeTopic::new("a/+", QoS::AtLeastOnce).unwrap();
    assert_eq!(s.topic(), "a/+");
    assert_eq!(s.qos(), QoS::AtLeastOnce);
}

#[test]
fn clone_matches_the_same_topics() {
    let s = SubscribeTopic::new("a/+/c", QoS::AtMostOnce).unwrap();
    let c = s.clone();
    assert_eq!(c.topic(), s.topic());
    assert_eq!(c.qos(), s.qos());
    assert!(c.matches("a/b/c"));
    assert!(!c.matches("a/b/d"));
}

#[test]
fn oversized_filter_is_refused() {
    let topic = "+".repeat(200_000);
    let r = SubscribeTopic::new(&topic, QoS::AtMostOnce);
    assert!(matches!(r, Err(SubscribeTopicError::Regex(_))));
}

#[test]
fn multi_level_wildcard_stops_at_newline() {
    let s = SubscribeTopic::new("a/#", QoS::AtMostOnce).unwrap();
    assert!(!s.matches("a/x\ny"));
    assert!(s.matches("a/x y"));
}

#[test]
fn single_level_wildcard_keeps_level_count() {
    let s = SubscribeTopic::new("+/+", QoS::AtMostOnce).unwrap();
    assert!(s.matches("a/b"));
    assert!(!s.matches("a/b/c"));
    assert!(!s.matches("ab"));
}

#[test]
fn metacharacters_match_only_themselves() {
    let s = SubscribeTopic::new("a.b|c", QoS::AtMostOnce).unwrap();
    assert!(s.matches("a.b|c"));
    assert!(!s.matches("axb|c"));
    assert!(!s.matches("c"));
}

#[test]
fn multi_level_wildcard_takes_parent_level() {
    let s = SubscribeTopic::new("sport/tennis/player1/#", QoS::AtMostOnce).unwrap();
    assert!(s.matches("sport/tennis/player1"));
    assert!(s.matches("sport/tennis/player1/ranking"));
    assert!(s.matches("sport/tennis/player1/score/wimbledon"));
    assert!(!s.matches("sport/tennis/player2"));
}

#[test]
fn lone_multi_level_wildcard_takes_everything() {
    let s = SubscribeTopic::new("#", QoS::AtMostOnce).unwrap();
    assert!(s.matches("a"));
    assert!(s.matches("a/b/c"));
    assert!(s.matches("/"));
}

#[test]
fn single_level_wildcard_takes_empty_level() {
    let s = SubscribeTopic::new("a/+", QoS::AtMostOnce).unwrap();
    assert!(s.matches("a/"));
    assert!(s.matches("a/b"));
    assert!(!s.matches("a"));
    assert!(!s.matches("a/b/c"));
}
