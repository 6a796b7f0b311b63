use vstd::prelude::*;

verus! {

/// Share of the right channel in the total volume, in percent; 0 when both
/// channels are silent.
pub open spec fn balance_of(left: int, right: int) -> int {
    if left == 0 && right == 0 {
        0
    } else {
        right * 100 / (left + right)
    }
}

/// Computes [`balance_of`].
pub fn balance_percent(left: i64, right: i64) -> (r: u8)
    requires
        0 <= left,
        0 <= right,
        right <= i64::MAX / 100,
        left + right <= i64::MAX,
    ensures
        r == balance_of(left as int, right as int),
{
    if left == 0 && right == 0 {
        return 0;
    }
    let p = right * 100 / (left + right);
    assert(p <= 100) by (nonlinear_arith)
        requires
            p == right * 100 / (left + right),
            0 <= left,
            0 <= right,
            left + right > 0,
    {
        assert(right * 100 <= (left + right) * 100);
    }
    assert(p >= 0) by (nonlinear_arith)
        requires
            p == right * 100 / (left + right),
            0 <= right,
            left + right > 0,
    {}
    p as u8
}

/// Splits the total volume of both channels so that the right channel gets
/// `balance` percent of it: the new left and right volumes.
pub fn split_balance(left: i64, right: i64, balance: u8) -> (r: (i64, i64))
    requires
        0 <= left,
        0 <= right,
        left + right <= i64::MAX / 255,
    ensures
        r.1 == (left + right) * (balance as int) / 100,
        r.0 == left + right - r.1,
{
    let total = left + right;
    assert(0 <= total * (balance as i64) <= i64::MAX) by (nonlinear_arith)
        requires
            0 <= total <= i64::MAX / 255,
            0 <= balance <= 255,
    {}
    let new_right = total * balance as i64 / 100;
    (total - new_right, new_right)
}

/// What the bar knows of one media player.
pub struct PlayerInfo {
    pub title: String,
    pub playback_status: String,
}

/// The player has something loaded.
pub open spec fn alive(p: PlayerInfo) -> bool {
    p.title@.len() > 0
}

/// The player is playing.
pub open spec fn playing(p: PlayerInfo) -> bool {
    p.playback_status@ == seq!['P', 'l', 'a', 'y', 'i', 'n', 'g']
}

/// The player the bar shows: the first loaded one that is playing, else the
/// first loaded one, else none.
pub fn pick_player(players: &Vec<PlayerInfo>) -> (r: Option<usize>)
    ensures
        match r {
            Some(i) => i < players@.len() && alive(players@[i as int]) && (if exists|j: int|
                0 <= j < players@.len() && alive(#[trigger] players@[j]) && playing(players@[j]) {
                playing(players@[i as int]) && forall|j: int|
                    0 <= j < i ==> !(alive(#[trigger] players@[j]) && playing(players@[j]))
            } else {
                forall|j: int| 0 <= j < i ==> !alive(#[trigger] players@[j])
            }),
            None => forall|j: int| 0 <= j < players@.len() ==> !alive(#[trigger] players@[j]),
        },
{
    let playing_key = String::from_str("Playing");
    proof {
        reveal_strlit("Playing");
    }
    assert(playing_key@ =~= seq!['P', 'l', 'a', 'y', 'i', 'n', 'g']);
    let mut first: Option<usize> = None;
    let mut i: usize = 0;
    while i < players.len()
        invariant
            i <= players@.len(),
            playing_key@ == seq!['P', 'l', 'a', 'y', 'i', 'n', 'g'],
            forall|j: int| 0 <= j < i ==> !(alive(#[trigger] players@[j]) && playing(players@[j])),
            match first {
                Some(f) => f < i && alive(players@[f as int]) && forall|j: int|
                    0 <= j < f ==> !alive(#[trigger] players@[j]),
                None => forall|j: int| 0 <= j < i ==> !alive(#[trigger] players@[j]),
            },
        decreases players@.len() - i,
    {
        let p = &players[i];
        if !p.title.as_str().is_empty() {
            if p.playback_status == playing_key {
                return Some(i);
            }
            if first.is_none() {
                first = Some(i);
            }
        }
        i += 1;
    }
    first
}

} // verus!
