//! Places an image can come from, how each resolves to a fetchable URL, and which of them a
//! message carries.
use vstd::prelude::*;

verus! {

/// Relies on `String::push`: appends one character.
#[verifier::external_body]
pub(crate) fn push_char(s: &mut String, c: char)
    ensures
        final(s)@ == old(s)@.push(c),
{
    s.push(c)
}

/// The ASCII digit for `d < 10`.
pub open spec fn digit_char(d: nat) -> char {
    ((d + 48) as u32) as char
}

/// The decimal numeral of `n`, without leading zeros.
pub open spec fn decimal(n: nat) -> Seq<char>
    decreases n,
{
    if n < 10 {
        seq![digit_char(n)]
    } else {
        decimal(n / 10).push(digit_char(n % 10))
    }
}

/// Appends the decimal numeral of `n` to `s`.
pub fn push_decimal(s: &mut String, n: u64)
    ensures
        final(s)@ == old(s)@ + decimal(n as nat),
    decreases n,
{
    if n >= 10 {
        push_decimal(s, n / 10);
    }
    let d = (n % 10) as u8;
    let c = (48u8 + d) as char;
    assert(c == digit_char((n % 10) as nat));
    push_char(s, c);
    assert(decimal(n as nat) =~= if n < 10 {
        seq![digit_char(n as nat)]
    } else {
        decimal((n / 10) as nat).push(digit_char((n % 10) as nat))
    });
}

/// Where custom emoji images are served, by id.
pub const EMOJI_CDN: &'static str = "https://cdn.discordapp.com/emojis/";

/// The URL of the image of the custom emoji `id`.
pub open spec fn emoji_url_of(id: u64) -> Seq<char> {
    EMOJI_CDN@ + decimal(id as nat)
}

/// The URL of the image of the custom emoji `id`.
pub fn emoji_url(id: u64) -> (r: String)
    ensures
        r@ == emoji_url_of(id),
{
    let mut s = String::from_str(EMOJI_CDN);
    push_decimal(&mut s, id);
    s
}

/// A sticker, with the image URL that the platform gives for it (none for a format that has no
/// image).
#[derive(Clone, Debug, PartialEq, Eq)]
pub struct StickerRef {
    pub id: u64,
    pub image_url: Option<String>,
}

/// A place an image can come from.
#[derive(Clone, Debug, PartialEq, Eq)]
pub enum ResolveUrl {
    /// An image at a URL: an attachment, an embed image, a profile picture.
    Direct(String),
    /// A custom emoji, by id.
    Emoji(u64),
    /// A sticker.
    Sticker(StickerRef),
    /// A reaction on a message: the id of its custom emoji, or `None` for a built-in emoji.
    Reaction(Option<u64>),
    /// The guild's icon.
    Icon(String),
    /// The guild's banner.
    Banner(String),
}

/// The URL that a source's image can be fetched from, if it has one.
pub open spec fn resolved(src: ResolveUrl) -> Option<Seq<char>> {
    match src {
        ResolveUrl::Direct(u) => Some(u@),
        ResolveUrl::Icon(u) => Some(u@),
        ResolveUrl::Banner(u) => Some(u@),
        ResolveUrl::Emoji(id) => Some(emoji_url_of(id)),
        ResolveUrl::Sticker(s) => match s.image_url {
            Some(u) => Some(u@),
            None => None,
        },
        ResolveUrl::Reaction(Some(id)) => Some(emoji_url_of(id)),
        ResolveUrl::Reaction(None) => None,
    }
}

impl ResolveUrl {
    /// The URL that this source's image can be fetched from; built-in emoji and stickers
    /// without an image have none.
    pub fn resolve(&self) -> (r: Option<String>)
        ensures
            match r {
                Some(s) => resolved(*self) == Some(s@),
                None => resolved(*self) is None,
            },
    {
        match self {
            ResolveUrl::Direct(u) => Some(u.clone()),
            ResolveUrl::Icon(u) => Some(u.clone()),
            ResolveUrl::Banner(u) => Some(u.clone()),
            ResolveUrl::Emoji(id) => Some(emoji_url(*id)),
            ResolveUrl::Sticker(s) => match &s.image_url {
                Some(u) => Some(u.clone()),
                None => None,
            },
            ResolveUrl::Reaction(Some(id)) => Some(emoji_url(*id)),
            ResolveUrl::Reaction(None) => None,
        }
    }
}

/// `c` is an ASCII digit.
pub open spec fn is_digit(c: char) -> bool {
    48 <= (c as u32) <= 57
}

/// The value of a string of ASCII digits.
pub open spec fn digits_value(s: Seq<char>) -> nat
    decreases s.len(),
{
    if s.len() == 0 {
        0
    } else {
        digits_value(s.drop_last()) * 10 + ((s.last() as u32) - 48) as nat
    }
}

/// The text after an optional leading `+`.
pub open spec fn unsigned_digits(s: Seq<char>) -> Seq<char> {
    if s.len() > 0 && s[0] == '+' {
        s.drop_first()
    } else {
        s
    }
}

/// Every character is an ASCII digit.
pub open spec fn all_digits(s: Seq<char>) -> bool {
    forall|i: int| 0 <= i < s.len() ==> is_digit(#[trigger] s[i])
}

/// What `str::parse::<u64>` gives: an optional `+`, then one or more ASCII digits whose value
/// fits in 64 bits.
pub open spec fn parsed_u64(s: Seq<char>) -> Option<u64> {
    let body = unsigned_digits(s);
    if body.len() > 0 && all_digits(body) && digits_value(body) <= u64::MAX {
        Some(digits_value(body) as u64)
    } else {
        None
    }
}

/// Reads an unsigned decimal number.
pub fn parse_u64(s: &str) -> (r: Option<u64>)
    ensures
        r == parsed_u64(s@),
{
    let n = s.unicode_len();
    let mut i: usize = 0;
    if n > 0 && s.get_char(0) == '+' {
        i = 1;
    }
    let start = i;
    let ghost body = s@.subrange(start as int, n as int);
    assert(body =~= unsigned_digits(s@));
    if start == n {
        return None;
    }
    let mut value: u64 = 0;
    while i < n
        invariant
            n == s@.len(),
            start <= i <= n,
            body == s@.subrange(start as int, n as int),
            body == unsigned_digits(s@),
            forall|j: int| start <= j < i ==> is_digit(#[trigger] s@[j]),
            value == digits_value(s@.subrange(start as int, i as int)),
        decreases n - i,
    {
        let c = s.get_char(i);
        let code = c as u32;
        if code < 48 || code > 57 {
            proof {
                let k = i - start;
                assert(body[k] == c);
                assert(!is_digit(body[k]));
                assert(0 <= k < body.len());
            }
            return None;
        }
        let d = (code - 48) as u64;
        let ghost p = s@.subrange(start as int, i + 1);
        assert(p.drop_last() =~= s@.subrange(start as int, i as int));
        assert(p.last() == c);
        if value > (u64::MAX - d) / 10 {
            proof {
                assert(value * 10 + d > u64::MAX) by (nonlinear_arith)
                    requires
                        value > (u64::MAX - d) / 10,
                        d <= 9,
                ;
                assert(p =~= body.subrange(0, p.len() as int));
                lemma_digits_value_grows(p, body);
            }
            return None;
        }
        value = value * 10 + d;
        i = i + 1;
    }
    assert(s@.subrange(start as int, n as int) =~= body);
    assert forall|j: int| 0 <= j < body.len() implies is_digit(#[trigger] body[j]) by {
        assert(body[j] == s@[start + j]);
    }
    Some(value)
}

proof fn lemma_digits_value_prefix(p: Seq<char>, s: Seq<char>)
    requires
        p.len() <= s.len(),
        p == s.subrange(0, p.len() as int),
    ensures
        digits_value(p) <= digits_value(s),
    decreases s.len(),
{
    if p.len() < s.len() {
        assert(s.drop_last().subrange(0, p.len() as int) =~= p);
        lemma_digits_value_prefix(p, s.drop_last());
    } else {
        assert(p =~= s);
    }
}

proof fn lemma_digits_value_grows(p: Seq<char>, s: Seq<char>)
    requires
        p.len() <= s.len(),
        p == s.subrange(0, p.len() as int),
        digits_value(p) > u64::MAX,
    ensures
        digits_value(s) > u64::MAX,
{
    lemma_digits_value_prefix(p, s);
}

/// The syntax of a custom emoji mention in message text: `<`, an optional `a`, `:`, the name,
/// `:`, the id, `>`; the id is capture group 3.
pub const EMOJI_PATTERN: &'static str = r"<(a?):([\w_]+):(\d+)>";

/// Whether `pattern` compiles as a `regex` pattern.
pub uninterp spec fn regex_compiles(pattern: Seq<char>) -> bool;

/// The text of capture group `group` in each successive non-overlapping match of `pattern` in
/// `text`, as `regex` finds them (`None` where the group took no part in a match).
pub uninterp spec fn regex_captures(pattern: Seq<char>, text: Seq<char>, group: nat) -> Seq<
    Option<Seq<char>>,
>;

/// The view of an optional string.
pub open spec fn opt_view(o: Option<String>) -> Option<Seq<char>> {
    match o {
        Some(s) => Some(s@),
        None => None,
    }
}

/// Relies on `regex::Regex::new`, which refuses only a pattern that does not compile, and on
/// `Regex::captures_iter` with `Captures::get`: the group's text in each match, which depends on
/// the pattern and the text alone.
#[verifier::external_body]
fn capture_group(pattern: &str, text: &str, group: usize) -> (r: Option<Vec<Option<String>>>)
    ensures
        r is Some <==> regex_compiles(pattern@),
        r is Some ==> r->0@.len() == regex_captures(pattern@, text@, group as nat).len(),
        r is Some ==> forall|i: int|
            0 <= i < r->0@.len() ==> opt_view(#[trigger] r->0@[i]) == regex_captures(
                pattern@,
                text@,
                group as nat,
            )[i],
{
    let re = regex::Regex::new(pattern).ok()?;
    Some(re.captures_iter(text).map(|c| c.get(group).map(|m| m.as_str().to_string())).collect())
}

/// The ids that the captured texts parse to, in order, skipping those that do not parse.
pub open spec fn ids_of(caps: Seq<Option<Seq<char>>>) -> Seq<u64>
    decreases caps.len(),
{
    if caps.len() == 0 {
        Seq::empty()
    } else {
        let prev = ids_of(caps.drop_last());
        match caps.last() {
            Some(t) => match parsed_u64(t) {
                Some(id) => prev.push(id),
                None => prev,
            },
            None => prev,
        }
    }
}

/// The ids of the custom emoji mentioned in `text`, in order.
pub open spec fn emoji_ids_of(text: Seq<char>) -> Seq<u64> {
    if regex_compiles(EMOJI_PATTERN@) {
        ids_of(regex_captures(EMOJI_PATTERN@, text, 3))
    } else {
        Seq::empty()
    }
}

/// The ids of the custom emoji mentioned in `text`, in order.
pub fn emoji_ids(text: &str) -> (r: Vec<u64>)
    ensures
        r@ == emoji_ids_of(text@),
{
    let mut out: Vec<u64> = Vec::new();
    let caps = match capture_group(EMOJI_PATTERN, text, 3) {
        Some(c) => c,
        None => {
            return out;
        },
    };
    let ghost all = regex_captures(EMOJI_PATTERN@, text@, 3);
    let mut i: usize = 0;
    while i < caps.len()
        invariant
            i <= caps@.len(),
            caps@.len() == all.len(),
            forall|j: int| 0 <= j < caps@.len() ==> opt_view(#[trigger] caps@[j]) == all[j],
            out@ == ids_of(all.subrange(0, i as int)),
        decreases caps@.len() - i,
    {
        assert(all.subrange(0, i + 1).drop_last() =~= all.subrange(0, i as int));
        assert(opt_view(caps@[i as int]) == all[i as int]);
        match &caps[i] {
            Some(t) => match parse_u64(t.as_str()) {
                Some(id) => out.push(id),
                None => {},
            },
            None => {},
        }
        i = i + 1;
    }
    assert(all.subrange(0, caps@.len() as int) =~= all);
    out
}

/// The image URLs of one embed.
#[derive(Clone, Debug, PartialEq, Eq)]
pub struct EmbedImages {
    pub author_icon: Option<String>,
    pub image: Option<String>,
    pub footer_icon: Option<String>,
    pub thumbnail: Option<String>,
}

/// What of a message (or of an edit to one) can carry images: its text, the URLs of its
/// attachments and its embeds. A part that an edit left unchanged is `None`.
#[derive(Clone, Debug, PartialEq, Eq)]
pub struct MessageImages {
    pub content: Option<String>,
    pub attachments: Option<Vec<String>>,
    pub embeds: Option<Vec<EmbedImages>>,
}

/// The direct source for an optional URL.
pub open spec fn direct_opt(u: Option<String>) -> Seq<ResolveUrl> {
    match u {
        Some(s) => seq![ResolveUrl::Direct(s)],
        None => Seq::empty(),
    }
}

/// The sources of one embed: author icon, image, footer icon, thumbnail, those present.
pub open spec fn embed_sources(e: EmbedImages) -> Seq<ResolveUrl> {
    direct_opt(e.author_icon) + direct_opt(e.image) + direct_opt(e.footer_icon) + direct_opt(
        e.thumbnail,
    )
}

/// The sources of several embeds, embed by embed.
pub open spec fn embeds_sources(es: Seq<EmbedImages>) -> Seq<ResolveUrl>
    decreases es.len(),
{
    if es.len() == 0 {
        Seq::empty()
    } else {
        embeds_sources(es.drop_last()) + embed_sources(es.last())
    }
}

/// The sources a message carries, in extraction order: the custom emoji in its text, then its
/// attachments, then the images of its embeds.
pub open spec fn message_sources(m: MessageImages) -> Seq<ResolveUrl> {
    let emoji = match m.content {
        Some(c) => emoji_ids_of(c@).map_values(|id: u64| ResolveUrl::Emoji(id)),
        None => Seq::empty(),
    };
    let attached = match m.attachments {
        Some(a) => a@.map_values(|u: String| ResolveUrl::Direct(u)),
        None => Seq::empty(),
    };
    let embedded = match m.embeds {
        Some(e) => embeds_sources(e@),
        None => Seq::empty(),
    };
    emoji + attached + embedded
}

/// Something whose image sources can be listed.
pub trait Filterable {
    /// The sources, in extraction order.
    spec fn sources(&self) -> Seq<ResolveUrl>;

    fn get_urls(&self) -> (r: Vec<ResolveUrl>)
        ensures
            r@ == self.sources(),
    ;
}

fn push_direct(out: &mut Vec<ResolveUrl>, u: &Option<String>)
    ensures
        final(out)@ == old(out)@ + direct_opt(*u),
{
    if let Some(s) = u {
        out.push(ResolveUrl::Direct(s.clone()));
    }
    assert(final(out)@ =~= old(out)@ + direct_opt(*u));
}

impl Filterable for MessageImages {
    open spec fn sources(&self) -> Seq<ResolveUrl> {
        message_sources(*self)
    }

    fn get_urls(&self) -> (r: Vec<ResolveUrl>) {
        let mut out: Vec<ResolveUrl> = Vec::new();
        if let Some(c) = &self.content {
            let ids = emoji_ids(c.as_str());
            let mut i: usize = 0;
            while i < ids.len()
                invariant
                    i <= ids@.len(),
                    out@ == ids@.subrange(0, i as int).map_values(|id: u64| ResolveUrl::Emoji(id)),
                decreases ids@.len() - i,
            {
                out.push(ResolveUrl::Emoji(ids[i]));
                assert(ids@.subrange(0, i + 1).map_values(|id: u64| ResolveUrl::Emoji(id))
                    =~= ids@.subrange(0, i as int).map_values(|id: u64| ResolveUrl::Emoji(id)).push(
                    ResolveUrl::Emoji(ids@[i as int]),
                ));
                i = i + 1;
            }
            assert(ids@.subrange(0, ids@.len() as int) =~= ids@);
        }
        let ghost emoji = out@;
        if let Some(a) = &self.attachments {
            let mut i: usize = 0;
            while i < a.len()
                invariant
                    i <= a@.len(),
                    out@ == emoji + a@.subrange(0, i as int).map_values(
                        |u: String| ResolveUrl::Direct(u),
                    ),
                decreases a@.len() - i,
            {
                out.push(ResolveUrl::Direct(a[i].clone()));
                assert(emoji + a@.subrange(0, i + 1).map_values(|u: String| ResolveUrl::Direct(u))
                    =~= (emoji + a@.subrange(0, i as int).map_values(
                    |u: String| ResolveUrl::Direct(u),
                )).push(ResolveUrl::Direct(a@[i as int])));
                i = i + 1;
            }
            assert(a@.subrange(0, a@.len() as int) =~= a@);
        }
        let ghost attached = out@;
        if let Some(es) = &self.embeds {
            let mut i: usize = 0;
            while i < es.len()
                invariant
                    i <= es@.len(),
                    out@ == attached + embeds_sources(es@.subrange(0, i as int)),
                decreases es@.len() - i,
            {
                let e = &es[i];
                push_direct(&mut out, &e.author_icon);
                push_direct(&mut out, &e.image);
                push_direct(&mut out, &e.footer_icon);
                push_direct(&mut out, &e.thumbnail);
                assert(es@.subrange(0, i + 1).drop_last() =~= es@.subrange(0, i as int));
                assert(out@ =~= attached + embeds_sources(es@.subrange(0, i + 1)));
                i = i + 1;
            }
            assert(es@.subrange(0, es@.len() as int) =~= es@);
        }
        assert(out@ =~= message_sources(*self));
        out
    }
}

/// The candidates of a block command on a message: the message's own sources, then its
/// stickers, then the reactions with a custom emoji (given by the ids of the reactions' custom
/// emoji, `None` for a built-in one).
pub open spec fn message_candidates(m: MessageImages, stickers: Seq<StickerRef>, reactions: Seq<
    Option<u64>,
>) -> Seq<ResolveUrl> {
    message_sources(m) + stickers.map_values(|s: StickerRef| ResolveUrl::Sticker(s))
        + custom_reactions(reactions)
}

/// The reaction sources of the custom emoji among `reactions`, in order.
pub open spec fn custom_reactions(reactions: Seq<Option<u64>>) -> Seq<ResolveUrl>
    decreases reactions.len(),
{
    if reactions.len() == 0 {
        Seq::empty()
    } else {
        let prev = custom_reactions(reactions.drop_last());
        match reactions.last() {
            Some(id) => prev.push(ResolveUrl::Reaction(Some(id))),
            None => prev,
        }
    }
}

fn copy_sticker(s: &StickerRef) -> (r: StickerRef)
    ensures
        r == *s,
{
    StickerRef {
        id: s.id,
        image_url: match &s.image_url {
            Some(u) => Some(u.clone()),
            None => None,
        },
    }
}

/// The candidates of a block command on a message.
pub fn block_candidates(m: &MessageImages, stickers: &Vec<StickerRef>, reactions: &Vec<
    Option<u64>,
>) -> (r: Vec<ResolveUrl>)
    ensures
        r@ == message_candidates(*m, stickers@, reactions@),
{
    let mut out = m.get_urls();
    let ghost base = out@;
    let mut i: usize = 0;
    while i < stickers.len()
        invariant
            i <= stickers@.len(),
            out@ == base + stickers@.subrange(0, i as int).map_values(
                |s: StickerRef| ResolveUrl::Sticker(s),
            ),
        decreases stickers@.len() - i,
    {
        out.push(ResolveUrl::Sticker(copy_sticker(&stickers[i])));
        assert(base + stickers@.subrange(0, i + 1).map_values(|s: StickerRef| ResolveUrl::Sticker(s))
            =~= (base + stickers@.subrange(0, i as int).map_values(
            |s: StickerRef| ResolveUrl::Sticker(s),
        )).push(ResolveUrl::Sticker(stickers@[i as int])));
        i = i + 1;
    }
    assert(stickers@.subrange(0, stickers@.len() as int) =~= stickers@);
    let ghost with_stickers = out@;
    let mut j: usize = 0;
    while j < reactions.len()
        invariant
            j <= reactions@.len(),
            out@ == with_stickers + custom_reactions(reactions@.subrange(0, j as int)),
        decreases reactions@.len() - j,
    {
        assert(reactions@.subrange(0, j + 1).drop_last() =~= reactions@.subrange(0, j as int));
        if let Some(id) = reactions[j] {
            out.push(ResolveUrl::Reaction(Some(id)));
        }
        assert(out@ =~= with_stickers + custom_reactions(reactions@.subrange(0, j + 1)));
        j = j + 1;
    }
    assert(reactions@.subrange(0, reactions@.len() as int) =~= reactions@);
    out
}

/// The candidates of a block command on the guild's images: its icon, then its banner, those
/// it has.
pub fn guild_candidates(icon: Option<String>, banner: Option<String>) -> (r: Vec<ResolveUrl>)
    ensures
        r@ == (match icon {
            Some(u) => seq![ResolveUrl::Icon(u)],
            None => Seq::empty(),
        }) + (match banner {
            Some(u) => seq![ResolveUrl::Banner(u)],
            None => Seq::empty(),
        }),
{
    let mut out: Vec<ResolveUrl> = Vec::new();
    let ghost (i0, b0) = (icon, banner);
    if let Some(u) = icon {
        out.push(ResolveUrl::Icon(u));
    }
    if let Some(u) = banner {
        out.push(ResolveUrl::Banner(u));
    }
    assert(out@ =~= (match i0 {
        Some(u) => seq![ResolveUrl::Icon(u)],
        None => Seq::empty(),
    }) + (match b0 {
        Some(u) => seq![ResolveUrl::Banner(u)],
        None => Seq::empty(),
    }));
    out
}

} // verus!
