use pumpkin_level::player_command::{
    get_var_int, Action, InvalidAction, ReadingError, SPlayerCommand, VarInt,
};

#[test]
fn actions_have_their_numbers() {
    assert_eq!(Action::try_from(0), Ok(Action::LeaveBed));
    assert_eq!(Action::try_from(1), Ok(Action::StartSprinting));
    assert_eq!(Action::try_from(2), Ok(Action::StopSprinting));
    assert_eq!(Action::try_from(3), Ok(Action::StartHorseJump));
    assert_eq!(Action::try_from(4), Ok(Action::StopHorseJump));
    assert_eq!(Action::try_from(5), Ok(Action::OpenVehicleInventory));
    assert_eq!(Action::try_from(6), Ok(Action::StartFlyingElytra));
}

#[test]
fn other_numbers_are_no_actions() {
    assert_eq!(Action::try_from(7), Err(InvalidAction));
    assert_eq!(Action::try_from(-1), Err(InvalidAction));
    assert_eq!(Action::try_from(i32::MAX), Err(InvalidAction));
    assert_eq!(Action::try_from(i32::MIN), Err(InvalidAction));
}

#[test]
fn numbers_of_every_length_are_read() {
    assert_eq!(get_var_int(&[0x00], 0), Ok((VarInt(0), 1)));
    assert_eq!(get_var_int(&[0x7f], 0), Ok((VarInt(127), 1)));
    assert_eq!(get_var_int(&[0x80, 0x01], 0), Ok((VarInt(128), 2)));
    assert_eq!(get_var_int(&[0xff, 0x01], 0), Ok((VarInt(255), 2)));
    assert_eq!(get_var_int(&[0xdd, 0xc7, 0x01], 0), Ok((VarInt(25565), 3)));
    assert_eq!(
        get_var_int(&[0xff, 0xff, 0x7f], 0),
        Ok((VarInt(2097151), 3))
    );
    assert_eq!(
        get_var_int(&[0xff, 0xff, 0xff, 0xff, 0x07], 0),
        Ok((VarInt(2147483647), 5))
    );
    assert_eq!(
        get_var_int(&[0xff, 0xff, 0xff, 0xff, 0x0f], 0),
        Ok((VarInt(-1), 5))
    );
    assert_eq!(
        get_var_int(&[0x80, 0x80, 0x80, 0x80, 0x08], 0),
        Ok((VarInt(-2147483648), 5))
    );
}

#[test]
fn bits_beyond_the_number_are_dropped() {
    assert_eq!(
        get_var_int(&[0x81, 0x80, 0x80, 0x80, 0x70], 0),
        Ok((VarInt(1), 5))
    );
}

#[test]
fn a_number_is_read_where_it_stands() {
    assert_eq!(get_var_int(&[0xff, 0x80, 0x01, 0x05], 1), Ok((VarInt(128), 3)));
    assert_eq!(get_var_int(&[0x05], 1), Err(ReadingError::Incomplete));
}

#[test]
fn a_command_is_three_numbers() {
    let read = SPlayerCommand::read(&[0xdd, 0xc7, 0x01, 0x03, 0x64]);
    assert_eq!(
        read,
        Ok(SPlayerCommand {
            entity_id: VarInt(25565),
            action: VarInt(3),
            jump_boost: VarInt(100),
        })
    );
    assert_eq!(
        Action::try_from(read.unwrap().action.0),
        Ok(Action::StartHorseJump)
    );
}

#[test]
fn bytes_behind_a_command_make_no_difference() {
    let bytes = [0x01, 0x02, 0x00];
    let more = [0x01, 0x02, 0x00, 0xff, 0xff, 0xff, 0xff, 0xff, 0xff];
    assert_eq!(SPlayerCommand::read(&bytes), SPlayerCommand::read(&more));
    assert!(SPlayerCommand::read(&bytes).is_ok());
}

#[test]
fn a_command_that_ends_early_is_incomplete() {
    assert_eq!(SPlayerCommand::read(&[]), Err(ReadingError::Incomplete));
    assert_eq!(
        SPlayerCommand::read(&[0x01, 0x02]),
        Err(ReadingError::Incomplete)
    );
    assert_eq!(
        SPlayerCommand::read(&[0x01, 0x02, 0x80]),
        Err(ReadingError::Incomplete)
    );
}

#[test]
fn a_number_of_more_than_five_bytes_is_too_large() {
    assert_eq!(
        SPlayerCommand::read(&[0x01, 0x80, 0x80, 0x80, 0x80, 0x80, 0x01, 0x00]),
        Err(ReadingError::TooLarge)
    );
    assert_eq!(
        get_var_int(&[0xff, 0xff, 0xff, 0xff, 0xff], 0),
        Err(ReadingError::TooLarge)
    );
}
