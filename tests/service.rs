use nmea_journal::filter::FilterState;
use nmea_journal::journal::{journal_entry, recover_last_line};
use nmea_journal::position::{Fix, Position, UNITS_PER_DEGREE};
use nmea_journal::service::handle_sentence;
use nmea_parser::{NmeaParser, ParsedMessage};

fn to_units(degrees: f64) -> i32 {
    (degrees * UNITS_PER_DEGREE as f64).round() as i32
}

fn decode(line: &[u8]) -> Option<Fix> {
    let text = std::str::from_utf8(line).ok()?;
    match NmeaParser::new().parse_sentence(text) {
        Ok(ParsedMessage::Rmc(rmc)) => {
            Some(Fix::new(rmc.latitude.map(to_units), rmc.longitude.map(to_units)))
        }
        _ => None,
    }
}

fn restart(journal: &[u8]) -> FilterState {
    FilterState::restore(recover_last_line(journal).and_then(|line| decode(&line)))
}

const AT_40_N_73_W: &[u8] = b"$GPRMC,123519,A,4000.000,N,07300.000,W,022.4,084.4,230394,003.1,W";
const AT_41_1_N_72_2_W: &[u8] =
    b"$GPRMC,123520,A,4106.000,N,07212.000,W,022.4,084.4,230394,003.1,W*75\n";
const MUNICH: &[u8] = b"$GPRMC,123519,A,4807.038,N,01131.000,E,022.4,084.4,230394,003.1,W*6A";

#[test]
fn empty_journal_first_fix_is_written() {
    let mut journal: Vec<u8> = Vec::new();
    let mut state = restart(&journal);
    assert_eq!(state.last_position(), None);
    let fix = decode(AT_40_N_73_W).unwrap();
    assert_eq!(fix, Fix::at(Position::new(400_000_000, -730_000_000)));
    let written = handle_sentence(&mut state, AT_40_N_73_W, fix).unwrap();
    journal.extend_from_slice(&written);
    assert_eq!(journal.iter().filter(|b| **b == b'\n').count(), 1);
    assert_eq!(&journal[..journal.len() - 1], AT_40_N_73_W);
    assert_eq!(state.last_position(), Some(Position::new(400_000_000, -730_000_000)));
}

#[test]
fn rejected_fix_writes_nothing() {
    let mut state = FilterState::restore(Some(Fix::at(Position::new(400_000_000, -730_000_000))));
    let near = Fix::at(Position::new(400_000_500, -730_000_500));
    assert_eq!(handle_sentence(&mut state, b"$GPRMC,near", near), None);
    let quirk = Fix::at(Position::new(400_005_000, -730_000_500));
    assert_eq!(handle_sentence(&mut state, b"$GPRMC,quirk", quirk), None);
    assert_eq!(state.last_position(), Some(Position::new(400_000_000, -730_000_000)));
}

#[test]
fn sentence_without_position_writes_nothing() {
    let mut state = FilterState::new();
    assert_eq!(handle_sentence(&mut state, b"$GPRMC,,V", Fix::new(None, None)), None);
    assert_eq!(state, FilterState::new());
}

#[test]
fn restart_recovers_last_entry() {
    let mut journal = journal_entry(MUNICH);
    journal.extend_from_slice(AT_41_1_N_72_2_W);
    let state = restart(&journal);
    assert_eq!(state.last_position(), Some(Position::new(411_000_000, -722_000_000)));
}

#[test]
fn restart_with_only_one_entry_is_a_cold_start() {
    let state = restart(AT_41_1_N_72_2_W);
    assert_eq!(state.last_position(), None);
}

#[test]
fn missing_journal_first_fix_accepted_anywhere() {
    let mut state = FilterState::restore(None);
    let far = Fix::at(Position::new(-899_999_999, 1_799_999_999));
    assert_eq!(handle_sentence(&mut state, b"$GPRMC,far", far), Some(b"$GPRMC,far\n".to_vec()));
    assert_eq!(state.last_position(), Some(Position::new(-899_999_999, 1_799_999_999)));
}

#[test]
fn written_entry_decodes_to_the_same_fix() {
    let fix = decode(MUNICH).unwrap();
    assert_eq!(fix, Fix::at(Position::new(481_173_000, 115_166_667)));
    let mut state = FilterState::new();
    let entry = handle_sentence(&mut state, MUNICH, fix).unwrap();
    assert_ne!(entry, MUNICH.to_vec());
    assert_eq!(decode(&entry), Some(fix));
}

#[test]
fn restart_after_append_rejects_the_same_fix() {
    let mut journal = journal_entry(AT_40_N_73_W);
    let mut state = restart(&journal);
    assert_eq!(state.last_position(), None);
    let fix = decode(MUNICH).unwrap();
    journal.extend_from_slice(&handle_sentence(&mut state, MUNICH, fix).unwrap());
    let mut restarted = restart(&journal);
    assert_eq!(restarted, state);
    assert_eq!(restarted.last_position(), Some(Position::new(481_173_000, 115_166_667)));
    assert_eq!(handle_sentence(&mut restarted, MUNICH, fix), None);
}
