use fedbot::source::{
    block_candidates, emoji_ids, emoji_url, guild_candidates, parse_u64, EmbedImages, Filterable,
    MessageImages, ResolveUrl,
    StickerRef,
};

#[test]
fn emoji_url_is_the_cdn_url() {
    assert_eq!(emoji_url(123456789), "https://cdn.discordapp.com/emojis/123456789");
    assert_eq!(emoji_url(0), "https://cdn.discordapp.com/emojis/0");
    assert_eq!(
        emoji_url(u64::MAX),
        "https://cdn.discordapp.com/emojis/18446744073709551615"
    );
}

#[test]
fn resolve_each_kind() {
    let d = ResolveUrl::Direct("https://x/a.png".to_string());
    assert_eq!(d.resolve(), Some("https://x/a.png".to_string()));
    assert_eq!(ResolveUrl::Icon("i".to_string()).resolve(), Some("i".to_string()));
    assert_eq!(ResolveUrl::Banner("b".to_string()).resolve(), Some("b".to_string()));
    assert_eq!(
        ResolveUrl::Emoji(42).resolve(),
        Some("https://cdn.discordapp.com/emojis/42".to_string())
    );
    assert_eq!(
        ResolveUrl::Reaction(Some(7)).resolve(),
        Some("https://cdn.discordapp.com/emojis/7".to_string())
    );
    assert_eq!(ResolveUrl::Reaction(None).resolve(), None);
    let s = StickerRef { id: 5, image_url: Some("s.png".to_string()) };
    assert_eq!(ResolveUrl::Sticker(s).resolve(), Some("s.png".to_string()));
    let lottie = StickerRef { id: 6, image_url: None };
    assert_eq!(ResolveUrl::Sticker(lottie).resolve(), None);
}

#[test]
fn parse_u64_follows_std() {
    for text in ["0", "12", "+12", "", "+", "-1", "1a", "18446744073709551615", "18446744073709551616", "007", "++1", " 1"] {
        assert_eq!(parse_u64(text), text.parse::<u64>().ok(), "{text}");
    }
}

#[test]
fn emoji_ids_in_order() {
    let text = "hi <:smile:123> and <a:wave_1:456> but not <:bad:> or :x:789";
    assert_eq!(emoji_ids(text), vec![123, 456]);
    assert_eq!(emoji_ids("no emoji"), Vec::<u64>::new());
}

#[test]
fn emoji_id_too_large_is_skipped() {
    assert_eq!(emoji_ids("<:big:99999999999999999999> <:ok:5>"), vec![5]);
}

#[test]
fn message_sources_in_extraction_order() {
    let m = MessageImages {
        content: Some("look <:e:11>".to_string()),
        attachments: Some(vec!["a1".to_string(), "a2".to_string()]),
        embeds: Some(vec![
            EmbedImages {
                author_icon: Some("au".to_string()),
                image: None,
                footer_icon: Some("fo".to_string()),
                thumbnail: Some("th".to_string()),
            },
            EmbedImages { author_icon: None, image: Some("im".to_string()), footer_icon: None, thumbnail: None },
        ]),
    };
    let d = |s: &str| ResolveUrl::Direct(s.to_string());
    assert_eq!(
        m.get_urls(),
        vec![ResolveUrl::Emoji(11), d("a1"), d("a2"), d("au"), d("fo"), d("th"), d("im")]
    );
}

#[test]
fn edited_message_with_unchanged_parts() {
    let m = MessageImages { content: None, attachments: None, embeds: None };
    assert!(m.get_urls().is_empty());
    let m = MessageImages { content: Some("<:e:3>".to_string()), attachments: None, embeds: None };
    assert_eq!(m.get_urls(), vec![ResolveUrl::Emoji(3)]);
}

#[test]
fn block_candidates_add_stickers_and_custom_reactions() {
    let m = MessageImages {
        content: Some("<:e:1>".to_string()),
        attachments: Some(vec!["a".to_string()]),
        embeds: Some(vec![]),
    };
    let s = StickerRef { id: 9, image_url: Some("s".to_string()) };
    let c = block_candidates(&m, &vec![s.clone()], &vec![None, Some(4), None, Some(5)]);
    assert_eq!(
        c,
        vec![
            ResolveUrl::Emoji(1),
            ResolveUrl::Direct("a".to_string()),
            ResolveUrl::Sticker(s),
            ResolveUrl::Reaction(Some(4)),
            ResolveUrl::Reaction(Some(5)),
        ]
    );
}

#[test]
fn guild_candidates_icon_then_banner() {
    assert_eq!(
        guild_candidates(Some("i".to_string()), Some("b".to_string())),
        vec![ResolveUrl::Icon("i".to_string()), ResolveUrl::Banner("b".to_string())]
    );
    assert_eq!(guild_candidates(None, Some("b".to_string())), vec![ResolveUrl::Banner("b".to_string())]);
    assert!(guild_candidates(None, None).is_empty());
}
