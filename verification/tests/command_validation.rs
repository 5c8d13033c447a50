use redelay::command_validation::{key_position_by_name, key_positions, validate_command};

fn command(words: &[&str]) -> Vec<String> {
    words.iter().map(|w| w.to_string()).collect()
}

#[test]
fn a_push_names_its_key_after_the_command() {
    assert_eq!(validate_command(&command(&["rpush", "L", "x"])), Some(3));
    assert_eq!(validate_command(&command(&["LPUSH", "L", "x"])), Some(3));
    assert_eq!(validate_command(&command(&["RPush", "L", "x"])), Some(3));
}

#[test]
fn other_commands_name_no_key() {
    assert_eq!(validate_command(&command(&["PING"])), None);
    assert_eq!(validate_command(&command(&["rpushx", "L", "x"])), None);
    assert_eq!(validate_command(&command(&[])), None);
}

#[test]
fn the_name_in_upper_case_decides() {
    assert_eq!(key_position_by_name("LPUSH"), Some(3));
    assert_eq!(key_position_by_name("RPUSH"), Some(3));
    assert_eq!(key_position_by_name("rpush"), None);
    assert_eq!(key_position_by_name(""), None);
}

#[test]
fn key_positions_start_with_the_schedule_key() {
    assert_eq!(key_positions(3, &vec![1]), vec![1, 4]);
    assert_eq!(key_positions(4, &vec![1, 2]), vec![1, 5, 6]);
    assert_eq!(key_positions(3, &vec![]), vec![1]);
}
