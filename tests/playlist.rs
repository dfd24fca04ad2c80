use karaoke::playlist::{Playlist, PlaylistEntry, PlaylistState};
use karaoke::songs::Song;
use std::collections::HashSet;

const SECOND: i128 = 1_000_000_000;

fn catalog(rows: &[i64]) -> HashSet<i64> {
    rows.iter().copied().collect()
}

fn song(row_id: i64, title: &str, artist: &str, duration_ms: u64) -> Song {
    Song {
        row_id,
        title: title.to_string(),
        artist: artist.to_string(),
        language: None,
        year: None,
        duration_ms,
        lyrics: None,
        duet: false,
        cover_path: None,
        audio_path: String::new(),
    }
}

fn entry(id: u128, song: i64, singer: &str, predicted_end: i128) -> PlaylistEntry {
    PlaylistEntry { id, song, singer: singer.to_string(), predicted_end, password: None }
}

fn ids(p: &Playlist) -> Vec<u128> {
    p.state().list.iter().map(|e| e.id).collect()
}

fn three_queued() -> (Playlist, u128, u128, u128) {
    let mut p = Playlist::new(catalog(&[10, 20, 30]));
    let a = p.add(10, "A".to_string(), None).unwrap();
    let b = p.add(20, "B".to_string(), None).unwrap();
    let c = p.add(30, "C".to_string(), None).unwrap();
    (p, a, b, c)
}

#[test]
fn add_to_empty_playlist_queues_one_entry() {
    let mut p = Playlist::new(catalog(&[10, 20, 30]));
    let id = p.add(20, "Alice".to_string(), None).expect("song is in the catalog");
    let state = p.state();
    assert!(state.now_playing.is_none());
    assert_eq!(state.list.len(), 1);
    assert_eq!(state.list[0].id, id);
    assert_eq!(state.list[0].song, 20);
    assert_eq!(state.list[0].singer, "Alice");
}

#[test]
fn add_unknown_song_is_refused() {
    let mut p = Playlist::new(catalog(&[10, 20, 30]));
    assert_eq!(p.add(99, "Bob".to_string(), None), None);
    assert!(p.state().list.is_empty());
}

#[test]
fn add_entry_reports_validity() {
    let mut p = Playlist::new(catalog(&[10]));
    assert!(p.add_entry(7, 10, "A".to_string(), None, 5));
    assert!(!p.add_entry(8, 11, "B".to_string(), None, 5));
    let state = p.state();
    assert_eq!(state.list.len(), 1);
    assert_eq!(state.list[0].id, 7);
    assert_eq!(state.list[0].predicted_end, 5);
}

#[test]
fn fresh_ids_are_distinct() {
    let (_, a, b, c) = three_queued();
    assert_ne!(a, b);
    assert_ne!(b, c);
    assert_ne!(a, c);
}

#[test]
fn move_after_places_entry_behind_target() {
    let (mut p, a, b, c) = three_queued();
    assert!(p.move_after(a, c));
    assert_eq!(ids(&p), vec![b, c, a]);
    assert!(!p.move_after(b, b));
    assert_eq!(ids(&p), vec![b, c, a]);
    assert!(p.move_top(c));
    assert_eq!(ids(&p), vec![c, b, a]);
}

#[test]
fn move_after_backwards() {
    let (mut p, a, b, c) = three_queued();
    assert!(p.move_after(c, a));
    assert_eq!(ids(&p), vec![a, c, b]);
}

#[test]
fn move_after_unknown_id_changes_nothing() {
    let (mut p, a, b, c) = three_queued();
    assert!(!p.move_after(a, 12345));
    assert!(!p.move_after(12345, a));
    assert_eq!(ids(&p), vec![a, b, c]);
}

#[test]
fn swap_exchanges_positions() {
    let (mut p, a, b, c) = three_queued();
    assert!(p.swap(a, c));
    assert_eq!(ids(&p), vec![c, b, a]);
    assert!(!p.swap(b, b));
    assert!(!p.swap(b, 999));
    assert_eq!(ids(&p), vec![c, b, a]);
}

#[test]
fn move_top_of_unknown_id_is_false() {
    let (mut p, a, b, c) = three_queued();
    assert!(!p.move_top(4));
    assert_eq!(ids(&p), vec![a, b, c]);
}

#[test]
fn remove_takes_entry_out() {
    let (mut p, a, b, c) = three_queued();
    assert!(p.remove(b));
    assert_eq!(ids(&p), vec![a, c]);
    assert!(!p.remove(b));
    assert_eq!(ids(&p), vec![a, c]);
}

#[test]
fn remove_with_password_needs_the_right_one() {
    let mut p = Playlist::new(catalog(&[10]));
    let id = p.add(10, "A".to_string(), Some("secret".to_string())).unwrap();
    let open = p.add(10, "B".to_string(), None).unwrap();
    assert!(!p.remove_if_password_correct(id, &"guess".to_string()));
    assert!(!p.remove_if_password_correct(open, &"".to_string()));
    assert_eq!(ids(&p), vec![id, open]);
    assert!(p.remove_if_password_correct(id, &"secret".to_string()));
    assert_eq!(ids(&p), vec![open]);
}

#[test]
fn play_promotes_entry() {
    let (mut p, a, b, c) = three_queued();
    assert!(p.play(b));
    let state = p.state();
    assert_eq!(state.now_playing.as_ref().unwrap().song, 20);
    assert_eq!(state.now_playing.as_ref().unwrap().id, b);
    assert_eq!(ids(&p), vec![a, c]);
    assert_eq!(state.intermission_count, 0);
    assert!(!p.play(b));
    assert_eq!(p.now_playing_song(), Some(20));
}

#[test]
fn intermission_is_counted_for_short_breaks_only() {
    let t: i128 = 1_700_000_000 * SECOND;
    let state = PlaylistState {
        now_playing: Some(entry(2, 20, "B", t)),
        list: vec![entry(1, 10, "A", t + 300 * SECOND), entry(3, 30, "C", t + 600 * SECOND)],
        intermission_total: 0,
        intermission_count: 0,
    };
    let mut p = Playlist::load(state, catalog(&[10, 20, 30]));
    assert!(p.play_at(3, t + 45 * SECOND));
    assert_eq!(p.state().intermission_count, 1);
    assert_eq!(p.state().intermission_total, 45 * SECOND);
    assert_eq!(p.average_intermission(), 45 * SECOND);
    // C is predicted to end at t + 600 s; ten minutes after that is too long a break.
    assert!(p.play_at(1, t + 1200 * SECOND));
    assert_eq!(p.state().intermission_count, 1);
    assert_eq!(p.state().intermission_total, 45 * SECOND);
}

#[test]
fn late_start_is_not_an_intermission() {
    let t: i128 = 1_000 * SECOND;
    let state = PlaylistState {
        now_playing: Some(entry(2, 20, "B", t)),
        list: vec![entry(1, 10, "A", t)],
        intermission_total: 0,
        intermission_count: 0,
    };
    let mut p = Playlist::load(state, catalog(&[10, 20]));
    // The next song starts before the previous one was predicted to end.
    assert!(p.play_at(1, t - SECOND));
    assert_eq!(p.state().intermission_count, 0);
}

#[test]
fn average_intermission_rounds_toward_zero() {
    let make = |total: i128, count: u64| {
        Playlist::load(
            PlaylistState {
                now_playing: None,
                list: vec![],
                intermission_total: total,
                intermission_count: count,
            },
            catalog(&[]),
        )
    };
    assert_eq!(make(10, 3).average_intermission(), 3);
    assert_eq!(make(-10, 3).average_intermission(), -3);
    assert_eq!(make(10, 0).average_intermission(), 0);
    assert_eq!(make(i128::MIN, 1).average_intermission(), i128::MIN);
}

#[test]
fn predictions_follow_durations_and_intermissions() {
    let songs = vec![
        song(10, "Africa", "Toto", 243_000),
        song(20, "Bohemian Rhapsody", "Queen", 355_000),
        song(30, "Creep", "Radiohead", 238_000),
    ];
    let now: i128 = 1_000 * SECOND;
    let state = PlaylistState {
        now_playing: None,
        list: vec![entry(1, 10, "A", 0), entry(2, 30, "C", 0)],
        intermission_total: 90 * SECOND,
        intermission_count: 3,
    };
    let mut p = Playlist::load(state, catalog(&[10, 20, 30]));
    p.update_predictions(&songs, now);
    let list = p.state().list;
    assert_eq!(list[0].predicted_end, now + 243 * SECOND);
    assert_eq!(list[1].predicted_end, now + 243 * SECOND + 30 * SECOND + 238 * SECOND);
}

#[test]
fn predictions_start_after_the_playing_entry() {
    let songs = vec![song(10, "Africa", "Toto", 243_000)];
    let end: i128 = 5_000 * SECOND;
    let state = PlaylistState {
        now_playing: Some(entry(9, 20, "B", end)),
        list: vec![entry(1, 10, "A", 0), entry(2, 99, "X", 0)],
        intermission_total: 20 * SECOND,
        intermission_count: 1,
    };
    let mut p = Playlist::load(state, catalog(&[10, 20, 99]));
    p.update_predictions(&songs, 0);
    let list = p.state().list;
    assert_eq!(list[0].predicted_end, end + 20 * SECOND + 243 * SECOND);
    // A song missing from the lookup counts as zero length.
    assert_eq!(list[1].predicted_end, end + 20 * SECOND + 243 * SECOND + 20 * SECOND);
}

#[test]
fn predictions_are_clamped_to_representable_instants() {
    let songs = vec![song(10, "Long", "Band", u64::MAX)];
    let state = PlaylistState {
        now_playing: None,
        list: vec![entry(1, 10, "A", 0)],
        intermission_total: 0,
        intermission_count: 0,
    };
    let mut p = Playlist::load(state, catalog(&[10]));
    p.update_predictions(&songs, 0);
    assert_eq!(p.state().list[0].predicted_end, karaoke::playlist::MAX_INSTANT);
}

#[test]
fn song_duration_uses_first_match() {
    let songs = vec![song(10, "A", "X", 1), song(10, "B", "Y", 2)];
    assert_eq!(karaoke::playlist::song_duration(&songs, 10), 1_000_000);
    assert_eq!(karaoke::playlist::song_duration(&songs, 11), 0);
}

#[test]
fn reload_keeps_the_queue() {
    let (mut p, a, b, c) = three_queued();
    assert!(p.move_after(a, c));
    assert!(p.move_top(c));
    let reloaded = Playlist::load(p.state(), catalog(&[10, 20, 30]));
    assert_eq!(ids(&reloaded), vec![c, b, a]);
}

#[test]
fn reload_drops_songs_missing_from_catalog() {
    let (mut p, a, b, c) = three_queued();
    assert!(p.move_after(a, c));
    assert!(p.move_top(c));
    let reloaded = Playlist::load(p.state(), catalog(&[10, 20]));
    assert_eq!(ids(&reloaded), vec![b, a]);
}

#[test]
fn reload_clears_missing_now_playing() {
    let state = PlaylistState {
        now_playing: Some(entry(1, 30, "C", 0)),
        list: vec![],
        intermission_total: 7,
        intermission_count: 2,
    };
    let p = Playlist::load(state, catalog(&[10]));
    let s = p.state();
    assert!(s.now_playing.is_none());
    assert_eq!(s.intermission_total, 7);
    assert_eq!(s.intermission_count, 2);
}

#[test]
fn queued_songs_in_order() {
    let (p, _, _, _) = three_queued();
    assert_eq!(p.queued_songs(), vec![10, 20, 30]);
    assert!(p.is_valid_song(20));
    assert!(!p.is_valid_song(21));
}
