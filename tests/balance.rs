use lala_bar::balance::{balance_percent, pick_player, split_balance, PlayerInfo};

#[test]
fn balance_is_the_right_share() {
    assert_eq!(balance_percent(0, 0), 0);
    assert_eq!(balance_percent(50, 50), 50);
    assert_eq!(balance_percent(0, 70), 100);
    assert_eq!(balance_percent(30, 10), 25);
    assert_eq!(balance_percent(2, 1), 33);
    assert_eq!(balance_percent(3_000_000_000, 1_000_000_000), 25);
}

#[test]
fn split_keeps_the_total() {
    assert_eq!(split_balance(40, 60, 50), (50, 50));
    assert_eq!(split_balance(30, 10, 100), (0, 40));
    assert_eq!(split_balance(33, 0, 50), (17, 16));
    assert_eq!(split_balance(0, 0, 30), (0, 0));
    let big = i64::MAX / 255;
    assert_eq!(split_balance(big, 0, 0), (big, 0));
}

fn player(title: &str, status: &str) -> PlayerInfo {
    PlayerInfo { title: title.to_string(), playback_status: status.to_string() }
}

#[test]
fn playing_player_wins() {
    let ps = vec![player("", "Playing"), player("a", "Paused"), player("b", "Playing")];
    assert_eq!(pick_player(&ps), Some(2));
}

#[test]
fn first_loaded_player_otherwise() {
    let ps = vec![player("", "Paused"), player("a", "Paused"), player("b", "Stopped")];
    assert_eq!(pick_player(&ps), Some(1));
    assert_eq!(pick_player(&vec![player("", "Playing")]), None);
    assert_eq!(pick_player(&vec![]), None);
}
