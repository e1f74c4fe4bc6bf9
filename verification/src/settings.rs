//! Settings derived from the clock at start-up: the default player name and the default world
//! seed. Reading the clock is done by the game; here is what is made of the seconds read.

use vstd::prelude::*;
use vstd::string::StringExecFns;

verus! {

/// The character of a decimal digit.
pub open spec fn digit_char(d: int) -> char {
    seq!['0', '1', '2', '3', '4', '5', '6', '7', '8', '9'][d]
}

/// The decimal representation of `n`, without leading zeros.
pub open spec fn decimal(n: nat) -> Seq<char>
    decreases n,
{
    if n < 10 {
        seq![digit_char(n as int)]
    } else {
        decimal(n / 10).push(digit_char((n % 10) as int))
    }
}

fn digit_str(d: u64) -> (s: &'static str)
    requires
        d < 10,
    ensures
        s@ == seq![digit_char(d as int)],
{
    proof {
        reveal_strlit("0");
        reveal_strlit("1");
        reveal_strlit("2");
        reveal_strlit("3");
        reveal_strlit("4");
        reveal_strlit("5");
        reveal_strlit("6");
        reveal_strlit("7");
        reveal_strlit("8");
        reveal_strlit("9");
    }
    match d {
        0 => "0",
        1 => "1",
        2 => "2",
        3 => "3",
        4 => "4",
        5 => "5",
        6 => "6",
        7 => "7",
        8 => "8",
        _ => "9",
    }
}

/// Appends the decimal representation of `n` to `s`.
pub fn push_decimal(s: &mut String, n: u64)
    ensures
        final(s)@ == old(s)@ + decimal(n as nat),
    decreases n,
{
    if n >= 10 {
        push_decimal(s, n / 10);
    }
    s.append(digit_str(n % 10));
    proof {
        assert(final(s)@ =~= old(s)@ + decimal(n as nat));
    }
}

/// The player's name.
#[derive(Clone, Debug, PartialEq, Eq)]
pub struct PlayerNameSetting(pub String);

impl PlayerNameSetting {
    /// The default name for a clock reading of `secs` seconds since the Unix epoch:
    /// `Player` followed by the last three decimal digits of the seconds.
    pub fn from_seconds(secs: u64) -> (name: PlayerNameSetting)
        ensures
            name.0@ == seq!['P', 'l', 'a', 'y', 'e', 'r'] + decimal((secs % 1000) as nat),
    {
        proof {
            reveal_strlit("Player");
        }
        let mut name = String::from_str("Player");
        push_decimal(&mut name, secs % 1000);
        PlayerNameSetting(name)
    }
}

/// The seed of the terrain generator.
#[derive(Clone, Copy, Debug, PartialEq, Eq, Structural)]
pub struct TerrainGenerationSeed(pub u32);

impl TerrainGenerationSeed {
    /// The default seed for a clock reading of `secs` seconds since the Unix epoch: the seconds
    /// truncated to 32 bits.
    pub fn from_seconds(secs: u64) -> (seed: TerrainGenerationSeed)
        ensures
            seed.0 == secs as u32,
    {
        TerrainGenerationSeed(secs as u32)
    }
}

} // verus!
