use seshd::audio::{parse_sinks, Change, MockSinks, SinkWatch, Sinks, BLUETOOTH_PREFIX};

const HDMI: &str = "alsa_output.platform-107c706400.hdmi.hdmi-stereo";
const VICTROLA: &str = "bluez_output.E9_FE_A0_81_8C_E0.1";

fn names(list: &[&str]) -> Vec<String> {
    list.iter().map(|s| s.to_string()).collect()
}

#[test]
fn sinks_are_read_out_of_pactls_second_column() {
    let stdout = "65\talsa_output.platform-107c706400.hdmi.hdmi-stereo\tPipeWire\ts32le 2ch 48000Hz\tSUSPENDED\n\
                  66\tbluez_output.E9_FE_A0_81_8C_E0.1\tPipeWire\ts16le 2ch 44100Hz\tRUNNING\n";
    assert_eq!(parse_sinks(stdout), names(&[HDMI, VICTROLA]));
}

#[test]
fn no_sinks_at_all_is_not_an_error() {
    assert!(parse_sinks("").is_empty());
    assert!(parse_sinks("\n\n").is_empty());
}

#[test]
fn the_first_look_seeds_and_reports_nothing() {
    let mut watch = SinkWatch::new(BLUETOOTH_PREFIX);
    assert_eq!(watch.observe(&names(&[HDMI])), None);
}

#[test]
fn a_restart_with_the_speaker_connected_reports_nothing() {
    let mut watch = SinkWatch::new(BLUETOOTH_PREFIX);
    assert_eq!(watch.observe(&names(&[HDMI, VICTROLA])), None);
}

#[test]
fn the_speaker_appearing_is_found() {
    let mut watch = SinkWatch::new(BLUETOOTH_PREFIX);
    watch.observe(&names(&[HDMI]));
    assert_eq!(
        watch.observe(&names(&[HDMI, VICTROLA])),
        Some(Change::Found(VICTROLA.to_string()))
    );
}

#[test]
fn the_speaker_going_away_is_lost_and_names_it() {
    let mut watch = SinkWatch::new(BLUETOOTH_PREFIX);
    watch.observe(&names(&[HDMI, VICTROLA]));
    assert_eq!(
        watch.observe(&names(&[HDMI])),
        Some(Change::Lost(VICTROLA.to_string()))
    );
}

#[test]
fn nothing_is_reported_while_the_speaker_stays_put() {
    let mut watch = SinkWatch::new(BLUETOOTH_PREFIX);
    watch.observe(&names(&[HDMI, VICTROLA]));
    assert_eq!(watch.observe(&names(&[HDMI, VICTROLA])), None);
    assert_eq!(watch.observe(&names(&[HDMI, VICTROLA])), None);
}

#[test]
fn a_speaker_that_comes_back_reports_found_again() {
    let mut watch = SinkWatch::new(BLUETOOTH_PREFIX);
    watch.observe(&names(&[HDMI, VICTROLA]));
    assert_eq!(
        watch.observe(&names(&[HDMI])),
        Some(Change::Lost(VICTROLA.into()))
    );
    assert_eq!(
        watch.observe(&names(&[HDMI, VICTROLA])),
        Some(Change::Found(VICTROLA.into()))
    );
}

#[test]
fn only_bluetooth_sinks_count_as_the_speaker() {
    let mut watch = SinkWatch::new(BLUETOOTH_PREFIX);
    watch.observe(&names(&[HDMI]));
    assert_eq!(watch.observe(&names(&[])), None);
}

#[test]
fn a_line_without_a_tab_names_no_sink_and_crlf_endings_are_stripped() {
    assert_eq!(parse_sinks("no tabs here\n1\tone\r\n2\ttwo"), names(&["one", "two"]));
    assert_eq!(parse_sinks("1\t\n"), names(&[""]));
    assert_eq!(parse_sinks("1\ta\tb\tc"), names(&["a"]));
}

#[test]
fn a_second_bluetooth_sink_is_not_a_transition() {
    let mut watch = SinkWatch::new(BLUETOOTH_PREFIX);
    watch.observe(&names(&[VICTROLA]));
    assert_eq!(watch.observe(&names(&["bluez_output.OTHER.1"])), None);
}

#[test]
fn mock_sinks_report_what_they_were_given() {
    let mut sinks = MockSinks::new(&[HDMI, VICTROLA]);
    assert_eq!(sinks.names().unwrap(), names(&[HDMI, VICTROLA]));
    sinks.set(&[HDMI]);
    assert_eq!(sinks.names().unwrap(), names(&[HDMI]));
}
