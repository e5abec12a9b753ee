use naviarr::lyric_sources::{
    mxm_outcome, mxm_reply_action, mxm_start, mxm_step, DurationFit, MxmAction, MxmCandidate, MxmEvent,
    MxmFound, MxmLookup, MxmReplyAction, MxmTrack,
};

fn params(a: &MxmAction) -> (String, Vec<(String, String)>) {
    match a {
        MxmAction::Request(e, ps) => (e.clone(), ps.clone()),
        MxmAction::Finish(_) => panic!("expected a request"),
    }
}

fn pairs(v: &[(&str, &str)]) -> Vec<(String, String)> {
    v.iter().map(|(a, b)| (a.to_string(), b.to_string())).collect()
}

#[test]
fn reply_actions_renew_once() {
    assert!(matches!(mxm_reply_action(mxm_outcome(200, ""), false), MxmReplyAction::Use));
    assert!(matches!(mxm_reply_action(mxm_outcome(404, ""), false), MxmReplyAction::Empty));
    assert!(matches!(mxm_reply_action(mxm_outcome(401, "renew"), false), MxmReplyAction::RenewAndRetry));
    assert!(matches!(mxm_reply_action(mxm_outcome(401, "renew"), true), MxmReplyAction::StillExpired));
    match mxm_reply_action(mxm_outcome(503, "busy"), false) {
        MxmReplyAction::Fail(m) => assert_eq!(m, "musixmatch 503: busy"),
        _ => panic!("expected a failure"),
    }
}

#[test]
fn lookup_via_matcher_with_duration() {
    let (s, a) = mxm_start("Song", "Band", "");
    assert!(matches!(s, MxmLookup::Matching));
    assert_eq!(params(&a), ("matcher.track.get".to_string(), pairs(&[("q_track", "Song"), ("q_artist", "Band")])));
    let found = MxmFound { track_id: 42, instrumental: false };
    let (s, a) = mxm_step(s, MxmEvent::Matched(Some(found)), "Song", "Band", "", Some(215));
    assert!(matches!(s, MxmLookup::FetchingLyrics(_)));
    assert_eq!(params(&a), ("track.lyrics.get".to_string(), pairs(&[("track_id", "42")])));
    let (s, a) = mxm_step(s, MxmEvent::Lyrics(Some(("line one  \nline two".to_string(), false))), "Song", "Band", "", Some(215));
    assert_eq!(
        params(&a),
        (
            "track.subtitle.get".to_string(),
            pairs(&[
                ("track_id", "42"),
                ("subtitle_format", "lrc"),
                ("f_subtitle_length", "215"),
                ("f_subtitle_length_max_deviation", "2"),
            ])
        )
    );
    let (s, a) = mxm_step(s, MxmEvent::Subtitle(Some("[00:01.00] line one".to_string())), "Song", "Band", "", Some(215));
    assert!(matches!(s, MxmLookup::Done));
    match a {
        MxmAction::Finish(Some(r)) => {
            assert_eq!(r.plain_lyrics, Some("line one\nline two".to_string()));
            assert_eq!(r.synced_lyrics, Some("[00:01.00] line one".to_string()));
            assert_eq!(r.provider, Some("Musixmatch".to_string()));
            assert!(!r.cached && !r.instrumental);
        }
        _ => panic!("expected a result"),
    }
}

#[test]
fn lookup_falls_back_to_search_and_ends_empty() {
    let (s, _) = mxm_start("Song", "Band", "Album");
    let (s, a) = mxm_step(s, MxmEvent::Matched(None), "Song", "Band", "Album", None);
    assert!(matches!(s, MxmLookup::Searching));
    assert_eq!(params(&a).0, "track.search");
    assert_eq!(params(&a).1.len(), 6);
    let cands = vec![
        MxmCandidate {
            track: MxmTrack { track_name: "Other".into(), artist_name: "Band".into(), album_name: "Album".into() },
            fit: DurationFit::Close,
            found: MxmFound { track_id: 1, instrumental: false },
        },
        MxmCandidate {
            track: MxmTrack { track_name: "Song".into(), artist_name: "Band".into(), album_name: "Album".into() },
            fit: DurationFit::Unknown,
            found: MxmFound { track_id: 2, instrumental: true },
        },
    ];
    let (s, a) = mxm_step(s, MxmEvent::Searched(cands), "Song", "Band", "Album", None);
    assert_eq!(params(&a).1, pairs(&[("track_id", "2")]));
    let (s, a) = mxm_step(s, MxmEvent::Lyrics(None), "Song", "Band", "Album", None);
    assert!(matches!(s, MxmLookup::Done));
    match a {
        MxmAction::Finish(Some(r)) => {
            assert!(r.instrumental);
            assert_eq!(r.plain_lyrics, None);
        }
        _ => panic!("an instrumental track is still a result"),
    }
    let (s, _) = mxm_start("Song", "Band", "");
    let (s, _) = mxm_step(s, MxmEvent::Matched(None), "Song", "Band", "", None);
    let (s, a) = mxm_step(s, MxmEvent::Searched(vec![]), "Song", "Band", "", None);
    assert!(matches!(s, MxmLookup::Done));
    assert!(matches!(a, MxmAction::Finish(None)));
}

#[test]
fn mismatched_reply_ends_lookup() {
    let (s, _) = mxm_start("Song", "Band", "");
    let (s, a) = mxm_step(s, MxmEvent::Subtitle(None), "Song", "Band", "", None);
    assert!(matches!(s, MxmLookup::Done));
    assert!(matches!(a, MxmAction::Finish(None)));
}
