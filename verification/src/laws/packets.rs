//! What the bytes of a player's command say.

use crate::player_command::{
    continued, group_weight, groups_value, player_command_in, signed, var_int_at, Action,
    InvalidAction, ReadingError, SPlayerCommand, VarInt,
};
use vstd::prelude::*;

verus! {

/// The 7 bits of a number that a byte holds, if there is such a byte.
spec fn group(own: Seq<u8>, i: int) -> int {
    if i < own.len() {
        (own[i] % 128) as int
    } else {
        0
    }
}

/// A number that stands in `n` bytes, of which all but the last have their highest bit set, is
/// made up of their lower 7 bits, the lowest first, as a signed number of 32 bits.
pub proof fn law_number_in_its_bytes(bytes: Seq<u8>, at: int, n: int)
    requires
        0 <= at,
        1 <= n <= 5,
        at + n <= bytes.len(),
        forall|i: int| at <= i < at + n - 1 ==> #[trigger] bytes[i] >= 128,
        bytes[at + n - 1] < 128,
    ensures
        var_int_at(bytes, at) matches Ok((number, end)) && end == at + n && ({
            let total = (bytes[at] % 128) + (if n > 1 {
                128 * (bytes[at + 1] % 128)
            } else {
                0
            }) + (if n > 2 {
                16384 * (bytes[at + 2] % 128)
            } else {
                0
            }) + (if n > 3 {
                2097152 * (bytes[at + 3] % 128)
            } else {
                0
            }) + (if n > 4 {
                268435456 * (bytes[at + 4] % 128)
            } else {
                0
            });
            (number.0 - total) % 0x1_0000_0000 == 0
        }),
{
    lemma_continued_until(bytes, at, 5, n - 1);
    let own = bytes.subrange(at, at + n);
    reveal_with_fuel(groups_value, 6);
    reveal_with_fuel(group_weight, 6);
    lemma_groups_of(own);
}

/// How many bytes are continued before the first that is not.
proof fn lemma_continued_until(bytes: Seq<u8>, at: int, limit: nat, n: int)
    requires
        0 <= at,
        0 <= n < limit,
        at + n < bytes.len(),
        forall|i: int| at <= i < at + n ==> #[trigger] bytes[i] >= 128,
        bytes[at + n] < 128,
    ensures
        continued(bytes, at, limit) == n,
    decreases n,
{
    if n > 0 {
        assert(bytes[at] >= 128);
        lemma_continued_until(bytes, at + 1, (limit - 1) as nat, n - 1);
    }
}

/// The lowest group of a number.
proof fn lemma_lowest_group(bytes: Seq<u8>)
    requires
        bytes.len() > 0,
    ensures
        groups_value(bytes) == bytes[0] % 128 + 128 * groups_value(bytes.drop_first()),
    decreases bytes.len(),
{
    let rest = bytes.drop_first();
    if bytes.len() == 1 {
        assert(bytes.drop_last() =~= Seq::empty());
        assert(rest =~= Seq::empty());
        assert(groups_value(Seq::empty()) == 0);
        assert(group_weight(0) == 1);
    } else {
        lemma_lowest_group(bytes.drop_last());
        assert(bytes.drop_last().drop_first() =~= rest.drop_last());
        let weight = group_weight((rest.len() - 1) as nat);
        let last = (bytes.last() % 128) as nat;
        assert(group_weight((bytes.len() - 1) as nat) == 128 * weight);
        assert((128 * weight) * last == 128 * (weight * last)) by (nonlinear_arith);
        assert(rest.last() == bytes.last());
    }
}

/// The number in up to 5 groups.
proof fn lemma_groups_of(own: Seq<u8>)
    requires
        1 <= own.len() <= 5,
    ensures
        groups_value(own) == own[0] % 128 + 128 * group(own, 1) + 16384 * group(own, 2) + 2097152
            * group(own, 3) + 268435456 * group(own, 4),
{
    let a = own.drop_first();
    let b = a.drop_first();
    let c = b.drop_first();
    let d = c.drop_first();
    lemma_lowest_group(own);
    if own.len() > 1 {
        lemma_lowest_group(a);
    }
    if own.len() > 2 {
        lemma_lowest_group(b);
    }
    if own.len() > 3 {
        lemma_lowest_group(c);
    }
    if own.len() > 4 {
        lemma_lowest_group(d);
        assert(groups_value(d.drop_first()) == 0);
    }
}

/// A number is too large exactly if 5 bytes say that another follows, and is incomplete exactly
/// if the bytes end, before there are 5, with all of them saying so.
pub proof fn law_numbers_that_cannot_be_read(bytes: Seq<u8>, at: int)
    requires
        0 <= at <= bytes.len(),
    ensures
        var_int_at(bytes, at) == Err::<(VarInt, int), ReadingError>(ReadingError::TooLarge) <==> {
            &&& at + 5 <= bytes.len()
            &&& forall|i: int| at <= i < at + 5 ==> #[trigger] bytes[i] >= 128
        },
        var_int_at(bytes, at) == Err::<(VarInt, int), ReadingError>(ReadingError::Incomplete)
            <==> {
            &&& bytes.len() < at + 5
            &&& forall|i: int| at <= i < bytes.len() ==> #[trigger] bytes[i] >= 128
        },
{
    lemma_continued_is(bytes, at, 5);
}

/// What the count of continued bytes says.
proof fn lemma_continued_is(bytes: Seq<u8>, at: int, limit: nat)
    requires
        0 <= at <= bytes.len(),
    ensures
        ({
            let n = continued(bytes, at, limit);
            &&& n <= limit
            &&& at + n <= bytes.len()
            &&& forall|i: int| at <= i < at + n ==> #[trigger] bytes[i] >= 128
            &&& n < limit && at + n < bytes.len() ==> bytes[at + n as int] < 128
        }),
    decreases limit,
{
    if limit > 0 && at < bytes.len() && bytes[at] >= 128 {
        lemma_continued_is(bytes, at + 1, (limit - 1) as nat);
    }
}

/// A command is three numbers, one behind the other: which entity, which action and how strong a
/// jump, each as it stands there. The first that cannot be read says why the command cannot.
pub proof fn law_command_is_three_numbers(bytes: Seq<u8>)
    ensures
        match var_int_at(bytes, 0) {
            Err(error) => player_command_in(bytes) == Err::<SPlayerCommand, ReadingError>(error),
            Ok((entity, second)) => match var_int_at(bytes, second) {
                Err(error) => player_command_in(bytes) == Err::<SPlayerCommand, ReadingError>(
                    error,
                ),
                Ok((action, third)) => match var_int_at(bytes, third) {
                    Err(error) => player_command_in(bytes) == Err::<SPlayerCommand, ReadingError>(
                        error,
                    ),
                    Ok((jump, _)) => player_command_in(bytes) matches Ok(command)
                        && command.entity_id.0 == entity.0 && command.action.0 == action.0
                        && command.jump_boost.0 == jump.0,
                },
            },
        },
{
}

/// The bytes in which a number of at most 32 bits without a sign is written.
pub open spec fn number_bytes(number: nat) -> Seq<u8>
    decreases number,
{
    if number < 128 {
        seq![number as u8]
    } else {
        seq![(128 + number % 128) as u8] + number_bytes(number / 128)
    }
}

/// The bits of a signed number, as a number without a sign.
pub open spec fn unsigned(number: i32) -> nat {
    if number >= 0 {
        number as nat
    } else {
        (number + 0x1_0000_0000) as nat
    }
}

/// The bytes of a number.
proof fn lemma_number_bytes(number: nat, limit: nat)
    requires
        limit >= 1,
        number < group_weight(limit),
    ensures
        1 <= number_bytes(number).len() <= limit,
        forall|i: int|
            0 <= i < number_bytes(number).len() - 1 ==> #[trigger] number_bytes(number)[i] >= 128,
        number_bytes(number).last() < 128,
        groups_value(number_bytes(number)) == number,
    decreases limit,
{
    let bytes = number_bytes(number);
    if number < 128 {
        assert(bytes.drop_first() =~= Seq::empty());
        assert(groups_value(Seq::empty()) == 0);
    } else {
        let rest = number_bytes(number / 128);
        assert(group_weight(0) == 1);
        assert(group_weight(1) == 128 * group_weight(0));
        assert(limit > 1);
        assert(group_weight(limit) == 128 * group_weight((limit - 1) as nat));
        lemma_number_bytes(number / 128, (limit - 1) as nat);
        assert(bytes.drop_first() =~= rest);
        assert forall|i: int| 0 <= i < bytes.len() - 1 implies #[trigger] bytes[i] >= 128 by {
            if i > 0 {
                assert(bytes[i] == rest[i - 1]);
            }
        }
        assert(bytes.last() == rest.last());
    }
    lemma_lowest_group(bytes);
}

/// A number is read back from its bytes, wherever they stand.
pub proof fn law_number_is_read_back(before: Seq<u8>, number: i32, more: Seq<u8>)
    ensures
        var_int_at(before + number_bytes(unsigned(number)) + more, before.len() as int) == Ok::<
            (VarInt, int),
            ReadingError,
        >((VarInt(number), (before.len() + number_bytes(unsigned(number)).len()) as int)),
{
    let own = number_bytes(unsigned(number));
    let bytes = before + own + more;
    let at = before.len() as int;
    reveal_with_fuel(group_weight, 6);
    lemma_number_bytes(unsigned(number), 5);
    assert forall|i: int| at <= i < at + own.len() - 1 implies #[trigger] bytes[i] >= 128 by {
        assert(bytes[i] == own[i - at]);
    }
    assert(bytes[at + own.len() - 1] == own.last());
    lemma_continued_until(bytes, at, 5, own.len() - 1);
    assert(bytes.subrange(at, at + own.len()) =~= own);
    assert(signed(unsigned(number)) == number);
}

/// Bytes that are three numbers, one behind the other, are read as the command whose entity,
/// action and jump are these numbers, whatever they are and whatever follows.
pub proof fn law_command_is_read_back(entity: i32, action: i32, jump: i32, more: Seq<u8>)
    ensures
        player_command_in(
            number_bytes(unsigned(entity)) + number_bytes(unsigned(action)) + number_bytes(
                unsigned(jump),
            ) + more,
        ) == Ok::<SPlayerCommand, ReadingError>(
            SPlayerCommand {
                entity_id: VarInt(entity),
                action: VarInt(action),
                jump_boost: VarInt(jump),
            },
        ),
{
    let a = number_bytes(unsigned(entity));
    let b = number_bytes(unsigned(action));
    let c = number_bytes(unsigned(jump));
    let bytes = a + b + c + more;
    law_number_is_read_back(Seq::empty(), entity, b + c + more);
    assert(Seq::empty() + a + (b + c + more) =~= bytes);
    law_number_is_read_back(a, action, c + more);
    assert(a + b + (c + more) =~= bytes);
    law_number_is_read_back(a + b, jump, more);
}

/// Whatever is read of such bytes is that command.
pub proof fn law_read_gives_the_command(
    bytes: &[u8],
    entity: i32,
    action: i32,
    jump: i32,
    more: Seq<u8>,
    read: Result<SPlayerCommand, ReadingError>,
)
    requires
        bytes@ == number_bytes(unsigned(entity)) + number_bytes(unsigned(action)) + number_bytes(
            unsigned(jump),
        ) + more,
        call_ensures(SPlayerCommand::read, (bytes,), read),
    ensures
        read matches Ok(command) && command.entity_id.0 == entity && command.action.0 == action
            && command.jump_boost.0 == jump,
{
    law_command_is_read_back(entity, action, jump, more);
}

/// The actions are numbered from 0 to 6, in this order, and no other number is an action.
pub proof fn law_action_of_each_number(number: i32)
    ensures
        <Action as vstd::std_specs::convert::TryFromSpec<i32>>::try_from_spec(number) == (
        if number == 0 {
            Ok::<Action, InvalidAction>(Action::LeaveBed)
        } else if number == 1 {
            Ok(Action::StartSprinting)
        } else if number == 2 {
            Ok(Action::StopSprinting)
        } else if number == 3 {
            Ok(Action::StartHorseJump)
        } else if number == 4 {
            Ok(Action::StopHorseJump)
        } else if number == 5 {
            Ok(Action::OpenVehicleInventory)
        } else if number == 6 {
            Ok(Action::StartFlyingElytra)
        } else {
            Err(InvalidAction)
        }),
{
}

} // verus!
