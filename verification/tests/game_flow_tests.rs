use yveb::arrows::{due_notes, Arrow, ArrowKind};
use yveb::settings::default_settings;
use yveb::song::parse_song;

#[test]
fn a_parsed_chart_feeds_the_spawn_scan() {
    let data = "kind,channel,timing,duration\nS,0,100,\nL,0,120,300\nS,0,4000,\n";
    let song = parse_song(data).expect("chart should parse");
    let settings = default_settings();

    // At 130 ms the first two notes are inside the spawn window; the third
    // is far in the future and is skipped.
    let due = due_notes(&song.notes, settings.channel_count(), 130);
    assert_eq!(
        due,
        vec![
            Arrow { channel: 0, timing: 100, kind: ArrowKind::Short },
            Arrow { channel: 0, timing: 120, kind: ArrowKind::Long { duration: 300 } },
        ]
    );

    // Every returned note can index the channel configuration.
    for note in &due {
        assert!(note.channel < settings.channels.len());
    }
}

#[test]
fn notes_on_unconfigured_channels_never_spawn() {
    // The default configuration has one channel, so a chart written for a
    // second channel spawns nothing from it.
    let data = "kind,channel,timing,duration\nS,1,100,\nS,0,110,\n";
    let song = parse_song(data).expect("chart should parse");
    let settings = default_settings();

    let due = due_notes(&song.notes, settings.channel_count(), 115);
    assert_eq!(due, vec![Arrow { channel: 0, timing: 110, kind: ArrowKind::Short }]);
}
