use zenoh_flow::keyed::Keyed;
use zenoh_flow::message::{Data, DataMessage};
use zenoh_flow::node::Configuration;
use zenoh_flow::operator::{
    any_pending, apply_actions, chosen_actions, copy_tokens, discard_dropped, flush, gather,
    is_connected, remaining, shrink,
};
use zenoh_flow::token::{Action, Token};

fn ready(n: u8, action: Action) -> Token {
    let mut token = Token::ready(DataMessage::new(Data::new("u8".to_string(), vec![n]), n as u64));
    token.set_action(action);
    token
}

fn tokens() -> Keyed<Token> {
    let mut tokens = Keyed::new();
    tokens.insert("consumed".to_string(), ready(1, Action::Consume));
    tokens.insert("kept".to_string(), ready(2, Action::Keep));
    tokens.insert("dropped".to_string(), ready(3, Action::Drop));
    tokens.insert("pending".to_string(), Token::Pending);
    tokens
}

#[test]
fn keyed_keeps_the_order_of_first_binding() {
    let mut map: Keyed<u32> = Keyed::new();
    assert_eq!(map.len(), 0);
    assert_eq!(map.insert("b".to_string(), 1), None);
    assert_eq!(map.insert("a".to_string(), 2), None);
    assert_eq!(map.insert("b".to_string(), 3), Some(1));
    assert_eq!(map.len(), 2);
    assert_eq!(map.key(0), "b");
    assert_eq!(map.key(1), "a");
    assert_eq!(*map.value(0), 3);
    assert_eq!(map.get("a"), Some(&2));
    assert_eq!(map.get("c"), None);
    assert!(map.contains_key("b"));
    assert!(!map.contains_key("B"));
    assert_eq!(map.position("a"), Some(1));
    assert_eq!(map.position("z"), None);
    assert_eq!(map.entries(), &vec![("b".to_string(), 3), ("a".to_string(), 2)]);
}

#[test]
fn keyed_replace_and_remove() {
    let mut map: Keyed<u32> = Keyed::new();
    map.insert("a".to_string(), 1);
    map.insert("b".to_string(), 2);
    map.insert("c".to_string(), 3);
    assert_eq!(map.replace(1, 20), 2);
    assert_eq!(map.get("b"), Some(&20));
    assert_eq!(map.remove("a"), Some(1));
    assert_eq!(map.remove("a"), None);
    assert_eq!(map.len(), 2);
    assert_eq!(map.key(0), "b");
    assert_eq!(map.key(1), "c");
    assert_eq!(map.get("a"), None);
    assert_eq!(map.get("c"), Some(&3));
}

#[test]
fn configuration_is_read_by_key() {
    let mut entries = Keyed::new();
    entries.insert("rate".to_string(), "10".to_string());
    let configuration = Configuration::new(entries);
    assert_eq!(configuration.get("rate").unwrap(), "10");
    assert!(configuration.get("other").is_none());
}

#[test]
fn gather_takes_what_is_to_be_consumed() {
    let mut tokens = tokens();
    assert!(any_pending(&tokens));
    let inputs = gather(&mut tokens);
    assert_eq!(inputs.len(), 1);
    assert_eq!(inputs.get("consumed").unwrap().timestamp(), 1);
    assert!(!tokens.get("consumed").unwrap().is_ready());
    assert!(!tokens.get("dropped").unwrap().is_ready());
    assert!(!tokens.get("pending").unwrap().is_ready());
    assert_eq!(tokens.get("kept").unwrap().action(), Some(Action::Keep));
    assert_eq!(tokens.get("kept").unwrap().message().unwrap().timestamp(), 2);
    assert_eq!(tokens.len(), 4);
}

#[test]
fn declined_firing_discards_only_what_is_dropped() {
    let mut tokens = tokens();
    discard_dropped(&mut tokens);
    assert_eq!(tokens.get("consumed").unwrap().action(), Some(Action::Consume));
    assert_eq!(tokens.get("kept").unwrap().action(), Some(Action::Keep));
    assert!(!tokens.get("dropped").unwrap().is_ready());
    assert!(!tokens.get("pending").unwrap().is_ready());
}

#[test]
fn flush_empties_every_token() {
    let mut tokens = tokens();
    flush(&mut tokens);
    for i in 0..tokens.len() {
        assert!(!tokens.value(i).is_ready());
    }
    assert_eq!(tokens.len(), 4);
}

#[test]
fn actions_are_applied_to_ready_tokens_only() {
    let mut tokens = tokens();
    let mut actions = Keyed::new();
    actions.insert("consumed".to_string(), Action::Keep);
    actions.insert("pending".to_string(), Action::Drop);
    actions.insert("nowhere".to_string(), Action::Drop);
    apply_actions(&mut tokens, &actions);
    assert_eq!(tokens.get("consumed").unwrap().action(), Some(Action::Keep));
    assert_eq!(tokens.get("kept").unwrap().action(), Some(Action::Keep));
    assert_eq!(tokens.get("dropped").unwrap().action(), Some(Action::Drop));
    assert_eq!(tokens.get("pending").unwrap().action(), None);
    assert_eq!(tokens.len(), 4);
}

#[test]
fn chosen_actions_are_read_off_a_copy() {
    let tokens = tokens();
    let mut copy = copy_tokens(&tokens);
    assert_eq!(copy.len(), 4);
    assert_eq!(copy.key(1), "kept");
    assert_eq!(copy.get("dropped").unwrap().message().unwrap().timestamp(), 3);
    // An input rule marks the copy.
    let marked = copy.replace(0, Token::Pending);
    let mut marked = marked;
    marked.set_action_drop();
    copy.replace(0, marked);
    let actions = chosen_actions(&copy);
    assert_eq!(actions.len(), 3);
    assert_eq!(actions.get("consumed"), Some(&Action::Drop));
    assert_eq!(actions.get("kept"), Some(&Action::Keep));
    assert_eq!(actions.get("dropped"), Some(&Action::Drop));
    assert_eq!(actions.get("pending"), None);
    // The tokens themselves are as they were.
    assert_eq!(tokens.get("consumed").unwrap().action(), Some(Action::Consume));
}

#[test]
fn remaining_links_keep_their_order() {
    assert_eq!(remaining(&vec![5, 1, 3, 1], &vec![1]), vec![5, 3]);
    assert_eq!(remaining(&vec![5, 1, 3], &vec![]), vec![5, 1, 3]);
    assert_eq!(remaining(&vec![], &vec![1]), Vec::<usize>::new());
    assert_eq!(remaining(&vec![2, 2], &vec![9, 2]), Vec::<usize>::new());
}

#[test]
fn shrink_takes_links_from_every_port() {
    let mut fanout = Keyed::new();
    fanout.insert("x".to_string(), vec![0usize, 1]);
    fanout.insert("y".to_string(), vec![1usize]);
    assert!(is_connected(&fanout));
    shrink(&mut fanout, &vec![1]);
    assert_eq!(fanout.get("x").unwrap(), &vec![0usize]);
    assert_eq!(fanout.get("y").unwrap(), &Vec::<usize>::new());
    assert!(is_connected(&fanout));
    shrink(&mut fanout, &vec![0]);
    assert!(!is_connected(&fanout));
    assert_eq!(fanout.len(), 2);
    assert!(!is_connected(&Keyed::new()));
}
