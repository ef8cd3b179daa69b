//! The packet by which a player says what the player's entity does.

use vstd::prelude::*;

verus! {

/// A number that takes fewer bytes the smaller it is: each byte holds 7 bits, the lowest
/// first, and all but the last byte have their highest bit set. It takes at most 5 bytes.
#[derive(Clone, Copy, Debug, PartialEq, Eq, Structural)]
pub struct VarInt(pub i32);

/// Why a packet could not be read.
#[derive(Clone, Copy, Debug, PartialEq, Eq, Structural)]
pub enum ReadingError {
    /// The bytes end before the packet does.
    Incomplete,
    /// A number takes more bytes than it may.
    TooLarge,
}

/// How many of at most `limit` bytes, from the place `at` on, say that another byte follows.
pub open spec fn continued(bytes: Seq<u8>, at: int, limit: nat) -> nat
    decreases limit,
{
    if limit == 0 || at >= bytes.len() || bytes[at] < 128 {
        0
    } else {
        1 + continued(bytes, at + 1, (limit - 1) as nat)
    }
}

/// What the lowest bit of the `n`th group of 7 bits counts.
pub open spec fn group_weight(n: nat) -> nat
    decreases n,
{
    if n == 0 {
        1
    } else {
        128 * group_weight((n - 1) as nat)
    }
}

/// The number that the groups of 7 bits in a sequence of bytes make up.
pub open spec fn groups_value(bytes: Seq<u8>) -> nat
    decreases bytes.len(),
{
    if bytes.len() == 0 {
        0
    } else {
        groups_value(bytes.drop_last()) + group_weight((bytes.len() - 1) as nat) * (bytes.last()
            % 128) as nat
    }
}

/// A number of 32 bits, read as a signed one. Higher bits are dropped.
pub open spec fn signed(value: nat) -> i32 {
    let low = value % 0x1_0000_0000;
    if low < 0x8000_0000 {
        low as i32
    } else {
        (low - 0x1_0000_0000) as i32
    }
}

/// The number that stands at the place `at`, and the place behind it.
pub open spec fn var_int_at(bytes: Seq<u8>, at: int) -> Result<(VarInt, int), ReadingError> {
    let groups = continued(bytes, at, 5);
    if groups == 5 {
        Err(ReadingError::TooLarge)
    } else if at + groups >= bytes.len() {
        Err(ReadingError::Incomplete)
    } else {
        Ok((VarInt(signed(groups_value(bytes.subrange(at, at + groups + 1)))), at + groups + 1))
    }
}

/// Bytes that say that another byte follows.
proof fn lemma_continued(bytes: Seq<u8>, at: int, limit: nat, n: nat)
    requires
        0 <= at,
        n <= limit,
        at + n <= bytes.len(),
        forall|i: int| at <= i < at + n ==> #[trigger] bytes[i] >= 128,
    ensures
        continued(bytes, at, limit) == n + continued(bytes, at + n, (limit - n) as nat),
    decreases n,
{
    if n > 0 {
        lemma_continued(bytes, at + 1, (limit - 1) as nat, (n - 1) as nat);
        assert(bytes[at] >= 128);
    }
}

/// What a group adds to a number.
proof fn lemma_groups_push(bytes: Seq<u8>, at: int, n: int)
    requires
        0 <= at,
        0 <= n,
        at + n < bytes.len(),
    ensures
        groups_value(bytes.subrange(at, at + n + 1)) == groups_value(bytes.subrange(at, at + n))
            + group_weight(n as nat) * (bytes[at + n] % 128) as nat,
{
    let longer = bytes.subrange(at, at + n + 1);
    assert(longer.drop_last() =~= bytes.subrange(at, at + n));
}

/// Reads the number that stands at the place `at`, and returns it with the place behind it.
pub fn get_var_int(bytes: &[u8], at: usize) -> (read: Result<(VarInt, usize), ReadingError>)
    requires
        at <= bytes@.len(),
    ensures
        match read {
            Ok((value, end)) => var_int_at(bytes@, at as int) == Ok::<(VarInt, int), ReadingError>(
                (value, end as int),
            ) && end <= bytes@.len(),
            Err(error) => var_int_at(bytes@, at as int) == Err::<(VarInt, int), ReadingError>(
                error,
            ),
        },
{
    let mut value: u32 = 0;
    let mut weight: u32 = 1;
    let mut i: usize = 0;
    proof {
        reveal_with_fuel(group_weight, 6);
    }
    while i < 5
        invariant
            i <= 5,
            at + i <= bytes@.len(),
            forall|j: int| at <= j < at + i ==> #[trigger] bytes@[j] >= 128,
            i < 5 ==> {
                &&& value == groups_value(bytes@.subrange(at as int, at + i))
                &&& value < weight
                &&& weight == group_weight(i as nat)
                &&& weight <= 0x1000_0000
            },
            i < 4 ==> weight <= 0x20_0000,
        decreases 5 - i,
    {
        proof {
            reveal_with_fuel(group_weight, 6);
            lemma_continued(bytes@, at as int, 5, i as nat);
        }
        if i >= bytes.len() - at {
            return Err(ReadingError::Incomplete);
        }
        let byte: u8 = bytes[at + i];
        let group: u32 = (byte % 128) as u32;
        proof {
            lemma_groups_push(bytes@, at as int, i as int);
            assert(bytes@[at + i] == byte);
            assert(group_weight(i as nat) * (byte % 128) as nat == weight * group);
        }
        let ghost total = groups_value(bytes@.subrange(at as int, at + i + 1));
        if i < 4 {
            assert(weight * group <= 0x20_0000 * 127) by (nonlinear_arith)
                requires
                    weight <= 0x20_0000,
                    group <= 127,
            ;
            value = value + weight * group;
            assert(value == total);
        } else {
            // The highest 3 bits of the last group have no place in a number of 32 bits.
            let kept: u32 = group % 16;
            assert(weight == 0x1000_0000);
            assert(total == value + 0x1000_0000 * group);
            value = value + 0x1000_0000 * kept;
            assert(value == total % 0x1_0000_0000);
        }
        if byte < 128 {
            proof {
                assert(value == total % 0x1_0000_0000);
                let low = value;
                assert(low >= 0x8000_0000 ==> low as i32 == low - 0x1_0000_0000) by (bit_vector);
            }
            return Ok((VarInt(value as i32), at + i + 1));
        }
        if i < 4 {
            assert(value < weight * 128) by (nonlinear_arith)
                requires
                    value < weight + weight * group,
                    group <= 127,
            ;
            weight = weight * 128;
        }
        i = i + 1;
    }
    proof {
        lemma_continued(bytes@, at as int, 5, 5);
    }
    Err(ReadingError::TooLarge)
}

/// A player's command: which entity, what it does, and how strong a jump is.
#[derive(Clone, Copy, Debug, PartialEq, Eq, Structural)]
pub struct SPlayerCommand {
    pub entity_id: VarInt,
    pub action: VarInt,
    pub jump_boost: VarInt,
}

/// The command that bytes begin with: three numbers, one behind the other.
pub open spec fn player_command_in(bytes: Seq<u8>) -> Result<SPlayerCommand, ReadingError> {
    match var_int_at(bytes, 0) {
        Err(error) => Err(error),
        Ok((entity_id, at)) => match var_int_at(bytes, at) {
            Err(error) => Err(error),
            Ok((action, at)) => match var_int_at(bytes, at) {
                Err(error) => Err(error),
                Ok((jump_boost, _)) => Ok(SPlayerCommand { entity_id, action, jump_boost }),
            },
        },
    }
}

impl SPlayerCommand {
    /// Reads the command that the bytes begin with. Bytes behind it are not looked at.
    pub fn read(bytes: &[u8]) -> (command: Result<SPlayerCommand, ReadingError>)
        ensures
            command == player_command_in(bytes@),
    {
        let (entity_id, at) = match get_var_int(bytes, 0) {
            Ok(read) => read,
            Err(error) => return Err(error),
        };
        let (action, at) = match get_var_int(bytes, at) {
            Ok(read) => read,
            Err(error) => return Err(error),
        };
        let (jump_boost, _) = match get_var_int(bytes, at) {
            Ok(read) => read,
            Err(error) => return Err(error),
        };
        Ok(SPlayerCommand { entity_id, action, jump_boost })
    }
}

/// What the player's entity does.
#[derive(Clone, Copy, Debug, PartialEq, Eq, Structural)]
pub enum Action {
    LeaveBed,
    StartSprinting,
    StopSprinting,
    StartHorseJump,
    StopHorseJump,
    OpenVehicleInventory,
    StartFlyingElytra,
}

/// There is no action of that number.
#[derive(Clone, Copy, Debug, PartialEq, Eq, Structural)]
pub struct InvalidAction;

impl Action {
    /// The actions, numbered from 0.
    pub open spec fn all() -> Seq<Action> {
        seq![
            Action::LeaveBed,
            Action::StartSprinting,
            Action::StopSprinting,
            Action::StartHorseJump,
            Action::StopHorseJump,
            Action::OpenVehicleInventory,
            Action::StartFlyingElytra,
        ]
    }

    /// The action of a number.
    pub open spec fn of_number(number: int) -> Option<Action> {
        if 0 <= number < Action::all().len() {
            Some(Action::all()[number])
        } else {
            None
        }
    }
}

impl vstd::std_specs::convert::TryFromSpecImpl<i32> for Action {
    open spec fn obeys_try_from_spec() -> bool {
        true
    }

    open spec fn try_from_spec(value: i32) -> Result<Action, InvalidAction> {
        match Action::of_number(value as int) {
            Some(action) => Ok(action),
            None => Err(InvalidAction),
        }
    }
}

impl TryFrom<i32> for Action {
    type Error = InvalidAction;

    fn try_from(value: i32) -> (action: Result<Action, InvalidAction>) {
        match value {
            0 => Ok(Action::LeaveBed),
            1 => Ok(Action::StartSprinting),
            2 => Ok(Action::StopSprinting),
            3 => Ok(Action::StartHorseJump),
            4 => Ok(Action::StopHorseJump),
            5 => Ok(Action::OpenVehicleInventory),
            6 => Ok(Action::StartFlyingElytra),
            _ => Err(InvalidAction),
        }
    }
}

} // verus!
