use fedbot::blocklist::{decode_blocklist, encode_blocklist, load_blocklist, StoreError};
use fedbot::confirm::{
    blocklist_update, confirmed_indices, emoji_already_gone, parse_decision, passive_remediation,
    prompts_for, remediation_for, sticker_already_gone, Remediation, UNKNOWN_EMOJI,
    UNKNOWN_STICKER,
};
use fedbot::hash::FixedHash;
use fedbot::source::{ResolveUrl, StickerRef};

fn h(n: u8) -> FixedHash {
    FixedHash { bytes: [n; 8] }
}

#[test]
fn prompts_skip_unresolvable_candidates() {
    let candidates = vec![
        ResolveUrl::Direct("u0".to_string()),
        ResolveUrl::Reaction(None),
        ResolveUrl::Emoji(77),
    ];
    let prompts = prompts_for(&candidates);
    assert_eq!(prompts.len(), 2);
    assert_eq!(prompts[0].index, 0);
    assert_eq!(prompts[0].url, "u0");
    assert_eq!(prompts[0].block_id, "0-block");
    assert_eq!(prompts[0].keep_id, "0-keep");
    assert_eq!(prompts[1].index, 2);
    assert_eq!(prompts[1].url, "https://cdn.discordapp.com/emojis/77");
    assert_eq!(prompts[1].block_id, "2-block");
}

#[test]
fn decisions_are_read_from_control_ids() {
    assert_eq!(parse_decision("0-block"), Some((0, true)));
    assert_eq!(parse_decision("12-keep"), Some((12, false)));
    assert_eq!(parse_decision("3-block-extra"), Some((3, true)));
    assert_eq!(parse_decision("+4-keep"), Some((4, false)));
    assert_eq!(parse_decision("3-maybe"), None);
    assert_eq!(parse_decision("x-block"), None);
    assert_eq!(parse_decision("3"), None);
    assert_eq!(parse_decision("-block"), None);
    assert_eq!(parse_decision(""), None);
}

#[test]
fn confirmed_in_candidate_order_whatever_the_answer_order() {
    let responses = vec![Some((2, true)), None, Some((1, false)), Some((0, true)), Some((9, true))];
    assert_eq!(confirmed_indices(3, &responses), vec![0, 2]);
    assert_eq!(confirmed_indices(0, &responses), Vec::<usize>::new());
}

#[test]
fn fan_in_gains_exactly_the_blocked_hashes() {
    let hashes = [h(1), h(2), h(3)];
    let responses = vec![Some((2, true)), Some((0, true)), Some((1, false))];
    let confirmed: Vec<FixedHash> =
        confirmed_indices(3, &responses).into_iter().map(|i| hashes[i]).collect();
    assert_eq!(confirmed, vec![h(1), h(3)]);
    let stored = Ok(vec![h(9)]);
    let blob = blocklist_update(&stored, &confirmed).unwrap().unwrap();
    assert_eq!(decode_blocklist(&blob).unwrap(), vec![h(1), h(3), h(9)]);
    let mut expected = encode_blocklist(&vec![h(1), h(3)]);
    expected.extend_from_slice(&encode_blocklist(&vec![h(9)]));
    assert_eq!(blob, expected);
}

#[test]
fn fan_in_of_known_hashes_writes_nothing() {
    let stored = Ok(vec![h(3), h(1)]);
    assert_eq!(blocklist_update(&stored, &vec![h(1), h(3)]), Ok(None));
    assert_eq!(blocklist_update(&stored, &vec![]), Ok(None));
}

#[test]
fn absent_blob_counts_as_empty() {
    let stored = load_blocklist(&Some(None));
    let blob = blocklist_update(&stored, &vec![h(4), h(4)]).unwrap().unwrap();
    assert_eq!(blob, encode_blocklist(&vec![h(4)]));
}

#[test]
fn unreadable_blocklist_is_not_overwritten() {
    let corrupt = load_blocklist(&Some(Some(vec![1, 2, 3])));
    assert_eq!(blocklist_update(&corrupt, &vec![h(4)]), Err(StoreError::Corrupt));
    let missing = load_blocklist(&None);
    assert_eq!(blocklist_update(&missing, &vec![h(4)]), Err(StoreError::NotFound));
    assert_eq!(blocklist_update(&Err(StoreError::Io), &vec![h(4)]), Err(StoreError::Io));
}

#[test]
fn unknown_sticker_counts_as_gone() {
    assert!(sticker_already_gone(Some(UNKNOWN_STICKER)));
    assert!(sticker_already_gone(Some(10060)));
    assert!(!sticker_already_gone(Some(10014)));
    assert!(!sticker_already_gone(None));
}

#[test]
fn remediation_by_kind() {
    let direct = ResolveUrl::Direct("u".to_string());
    assert_eq!(remediation_for(&direct, Some(5), None), vec![Remediation::DeleteMessage(5)]);
    assert_eq!(remediation_for(&direct, None, Some(8)), vec![Remediation::KickUser(8)]);
    assert_eq!(remediation_for(&direct, None, None), vec![]);
    assert_eq!(remediation_for(&ResolveUrl::Emoji(3), Some(5), None), vec![Remediation::DeleteEmoji(3)]);
    let sticker = ResolveUrl::Sticker(StickerRef { id: 4, image_url: None });
    assert_eq!(remediation_for(&sticker, Some(5), None), vec![Remediation::DeleteSticker(4)]);
    assert_eq!(
        remediation_for(&ResolveUrl::Reaction(Some(3)), Some(5), None),
        vec![Remediation::RemoveReactions(5)]
    );
    assert_eq!(remediation_for(&ResolveUrl::Icon("i".to_string()), None, None), vec![Remediation::ClearIcon]);
    assert_eq!(remediation_for(&ResolveUrl::Banner("b".to_string()), None, None), vec![Remediation::ClearBanner]);
}

#[test]
fn passive_remediation_takes_the_message_down() {
    assert_eq!(passive_remediation(&ResolveUrl::Emoji(3), Some(5), None), vec![Remediation::DeleteMessage(5)]);
    assert_eq!(
        passive_remediation(&ResolveUrl::Direct("u".to_string()), Some(5), None),
        vec![Remediation::DeleteMessage(5)]
    );
    assert_eq!(passive_remediation(&ResolveUrl::Emoji(3), None, None), vec![Remediation::DeleteEmoji(3)]);
    assert_eq!(
        passive_remediation(&ResolveUrl::Direct("u".to_string()), None, Some(2)),
        vec![Remediation::KickUser(2)]
    );
}

#[test]
fn unknown_emoji_counts_as_gone() {
    assert!(emoji_already_gone(Some(UNKNOWN_EMOJI)));
    assert!(emoji_already_gone(Some(10014)));
    assert!(!emoji_already_gone(Some(50013)));
    assert!(!emoji_already_gone(None));
}
