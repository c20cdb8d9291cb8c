//! What a message asks for.
//!
//! A message is a command where, white space around it aside, it begins with
//! the platform's command character; the command's name is what follows up
//! to the next white space. What a command takes with it begins at a fixed
//! count of bytes into the message.

use vstd::prelude::*;
use vstd::string::StringExecFns;
use crate::search::{
    first_index, last_index, lemma_first_index, lemma_last_index, lemma_no_first_index,
};
use crate::text::chars_of;

verus! {

/// Whether `c` is white space.
pub open spec fn is_space(c: char) -> bool {
    let code = c as u32;
    ||| 0x09 <= code <= 0x0d
    ||| code == 0x20
    ||| code == 0x85
    ||| code == 0xa0
    ||| code == 0x1680
    ||| 0x2000 <= code <= 0x200a
    ||| code == 0x2028
    ||| code == 0x2029
    ||| code == 0x202f
    ||| code == 0x205f
    ||| code == 0x3000
}

/// The characters that are white space.
pub open spec fn space() -> spec_fn(char) -> bool {
    |c: char| is_space(c)
}

/// The characters that are not white space.
pub open spec fn not_space() -> spec_fn(char) -> bool {
    |c: char| !is_space(c)
}

/// The text without the white space at its two ends.
pub open spec fn trimmed(text: Seq<char>) -> Seq<char> {
    match (first_index(text, not_space()), last_index(text, not_space())) {
        (Some(first), Some(last)) => text.subrange(first, last + 1),
        _ => Seq::<char>::empty(),
    }
}

/// The text up to its first white space.
pub open spec fn first_word(text: Seq<char>) -> Seq<char> {
    match first_index(text, space()) {
        Some(end) => text.take(end),
        None => text,
    }
}

/// The name of the command that a trimmed text gives, if it begins with the
/// command character.
pub open spec fn command_name(text: Seq<char>, prefix: char) -> Option<Seq<char>> {
    if text.len() > 0 && text[0] == prefix {
        Some(first_word(text).skip(1))
    } else {
        None
    }
}

/// The number of bytes that a character takes in a text.
pub open spec fn utf8_width(c: char) -> nat {
    let code = c as u32;
    if code < 0x80 {
        1
    } else if code < 0x800 {
        2
    } else if code < 0x10000 {
        3
    } else {
        4
    }
}

/// The number of bytes that a text takes.
pub open spec fn utf8_len(text: Seq<char>) -> nat
    decreases text.len(),
{
    if text.len() == 0 {
        0
    } else {
        utf8_len(text.drop_last()) + utf8_width(text.last())
    }
}

/// Whether a character of the text begins `n` bytes into it, or the text
/// ends there; `k` is then the number of characters before.
pub open spec fn is_boundary(text: Seq<char>, n: nat, k: int) -> bool {
    0 <= k <= text.len() && utf8_len(text.take(k)) == n
}

/// The text from `n` bytes on; none where the text is shorter or a character
/// lies across that place.
pub open spec fn byte_tail(text: Seq<char>, n: nat) -> Option<Seq<char>> {
    if exists|k: int| is_boundary(text, n, k) {
        Some(text.skip(choose|k: int| is_boundary(text, n, k)))
    } else {
        None
    }
}

/// What a command takes with it.
#[derive(Debug)]
pub enum Argument {
    /// The message is too short to hold any.
    Missing,
    /// No character begins where it should begin: the message ends before,
    /// or a character lies across that place.
    Broken,
    /// The rest of the message.
    Given(String),
}

/// What a command takes with it, as a plain value.
pub enum ArgumentView {
    Missing,
    Broken,
    Given(Seq<char>),
}

impl View for Argument {
    type V = ArgumentView;

    open spec fn view(&self) -> ArgumentView {
        match self {
            Argument::Missing => ArgumentView::Missing,
            Argument::Broken => ArgumentView::Broken,
            Argument::Given(rest) => ArgumentView::Given(rest@),
        }
    }
}

/// What is taken from `n` bytes into the text on. A text of fewer than `min`
/// bytes has nothing to give.
pub open spec fn argument_at(text: Seq<char>, min: nat, n: nat) -> ArgumentView {
    if utf8_len(text) < min {
        ArgumentView::Missing
    } else {
        match byte_tail(text, n) {
            Some(rest) => ArgumentView::Given(rest),
            None => ArgumentView::Broken,
        }
    }
}

/// What a message on the platform the stickers go to asks for.
#[derive(Debug)]
pub enum DiscordCommand {
    /// The set of the sticker held.
    StickerSet,
    /// The sticker held.
    Sticker,
    /// To confirm a pairing with the word given.
    Verify(Argument),
    /// Nothing that concerns the bot.
    Other,
}

/// A `DiscordCommand` as a plain value.
pub enum DiscordCommandView {
    StickerSet,
    Sticker,
    Verify(ArgumentView),
    Other,
}

impl View for DiscordCommand {
    type V = DiscordCommandView;

    open spec fn view(&self) -> DiscordCommandView {
        match self {
            DiscordCommand::StickerSet => DiscordCommandView::StickerSet,
            DiscordCommand::Sticker => DiscordCommandView::Sticker,
            DiscordCommand::Verify(word) => DiscordCommandView::Verify(word@),
            DiscordCommand::Other => DiscordCommandView::Other,
        }
    }
}

/// What a message on the platform the stickers come from asks for.
#[derive(Debug)]
pub enum TelegramCommand {
    /// The help text.
    Help,
    /// To begin a pairing with the tag given.
    Register(Argument),
    /// To end the pairing.
    Unregister,
    /// Something the bot does not know.
    Unknown,
}

/// A `TelegramCommand` as a plain value.
pub enum TelegramCommandView {
    Help,
    Register(ArgumentView),
    Unregister,
    Unknown,
}

impl View for TelegramCommand {
    type V = TelegramCommandView;

    open spec fn view(&self) -> TelegramCommandView {
        match self {
            TelegramCommand::Help => TelegramCommandView::Help,
            TelegramCommand::Register(tag) => TelegramCommandView::Register(tag@),
            TelegramCommand::Unregister => TelegramCommandView::Unregister,
            TelegramCommand::Unknown => TelegramCommandView::Unknown,
        }
    }
}

/// What a message asks for where commands begin with a full stop. The word
/// of `.verify` begins eight bytes into the trimmed message.
pub open spec fn discord_command(content: Seq<char>) -> DiscordCommandView {
    let text = trimmed(content);
    match command_name(text, '.') {
        None => DiscordCommandView::Other,
        Some(name) => if name == "set"@ {
            DiscordCommandView::StickerSet
        } else if name == "s"@ || name == "sticker"@ {
            DiscordCommandView::Sticker
        } else if name == "verify"@ {
            DiscordCommandView::Verify(argument_at(text, 0, 8))
        } else {
            DiscordCommandView::Other
        },
    }
}

/// What a message asks for where commands begin with a slash. The tag of
/// `/register` begins ten bytes into the trimmed message, which has to be
/// longer than that.
pub open spec fn telegram_command(content: Seq<char>) -> TelegramCommandView {
    let text = trimmed(content);
    match command_name(text, '/') {
        None => TelegramCommandView::Unknown,
        Some(name) => if name == "help"@ || name == "start"@ {
            TelegramCommandView::Help
        } else if name == "register"@ {
            TelegramCommandView::Register(argument_at(text, 11, 10))
        } else if name == "unregister"@ {
            TelegramCommandView::Unregister
        } else {
            TelegramCommandView::Unknown
        },
    }
}

/// Whether `c` is white space.
pub fn is_whitespace(c: char) -> (b: bool)
    ensures
        b == is_space(c),
{
    let code: u32 = c as u32;
    (0x09 <= code && code <= 0x0d) || code == 0x20 || code == 0x85 || code == 0xa0 || code
        == 0x1680 || (0x2000 <= code && code <= 0x200a) || code == 0x2028 || code == 0x2029
        || code == 0x202f || code == 0x205f || code == 0x3000
}

/// The number of bytes that `c` takes in a text.
pub fn width_of(c: char) -> (w: usize)
    ensures
        w == utf8_width(c),
        1 <= w <= 4,
{
    let code: u32 = c as u32;
    if code < 0x80 {
        1
    } else if code < 0x800 {
        2
    } else if code < 0x10000 {
        3
    } else {
        4
    }
}

/// Longer texts take more bytes.
pub proof fn lemma_utf8_len_grows(text: Seq<char>, i: int, j: int)
    requires
        0 <= i < j <= text.len(),
    ensures
        utf8_len(text.take(i)) < utf8_len(text.take(j)),
    decreases j - i,
{
    assert(text.take(j).drop_last() =~= text.take(j - 1));
    if i < j - 1 {
        lemma_utf8_len_grows(text, i, j - 1);
    }
}

/// Where the trimmed text begins and ends in `chars`.
fn trim_bounds(chars: &Vec<char>) -> (bounds: (usize, usize))
    ensures
        bounds.0 <= bounds.1 <= chars@.len(),
        chars@.subrange(bounds.0 as int, bounds.1 as int) == trimmed(chars@),
        bounds.0 < bounds.1 ==> !is_space(chars@[bounds.0 as int]),
{
    let mut first: usize = 0;
    while first < chars.len() && is_whitespace(chars[first])
        invariant
            first <= chars@.len(),
            forall|j: int| 0 <= j < first ==> !not_space()(#[trigger] chars@[j]),
        decreases chars@.len() - first,
    {
        first += 1;
    }
    if first == chars.len() {
        proof {
            lemma_no_first_index(chars@, not_space());
            assert(chars@.subrange(first as int, first as int) =~= Seq::<char>::empty());
        }
        return (first, first);
    }
    let mut end: usize = chars.len();
    while end > first + 1 && is_whitespace(chars[end - 1])
        invariant
            first < end <= chars@.len(),
            !is_space(chars@[first as int]),
            forall|j: int| end <= j < chars@.len() ==> !not_space()(#[trigger] chars@[j]),
        decreases end,
    {
        end -= 1;
    }
    proof {
        lemma_first_index(chars@, not_space(), first as int);
        lemma_last_index(chars@, not_space(), end - 1);
    }
    (first, end)
}

/// Where the first word of the characters between `from` and `to` ends.
fn word_end(chars: &Vec<char>, from: usize, to: usize) -> (end: usize)
    requires
        from <= to <= chars@.len(),
    ensures
        from <= end <= to,
        chars@.subrange(from as int, end as int) == first_word(
            chars@.subrange(from as int, to as int),
        ),
{
    let ghost text = chars@.subrange(from as int, to as int);
    let mut end: usize = from;
    while end < to && !is_whitespace(chars[end])
        invariant
            from <= end <= to <= chars@.len(),
            text == chars@.subrange(from as int, to as int),
            forall|j: int| 0 <= j < end - from ==> !space()(#[trigger] text[j]),
        decreases to - end,
    {
        end += 1;
    }
    proof {
        if end < to {
            assert(text[end - from] == chars@[end as int]);
            lemma_first_index(text, space(), end - from);
            assert(text.take(end - from) =~= chars@.subrange(from as int, end as int));
        } else {
            lemma_no_first_index(text, space());
        }
    }
    end
}

/// Whether the characters between `from` and `to` spell `word`.
fn spells(chars: &Vec<char>, from: usize, to: usize, word: &str) -> (same: bool)
    requires
        from <= to <= chars@.len(),
    ensures
        same == (chars@.subrange(from as int, to as int) == word@),
{
    let ghost text = chars@.subrange(from as int, to as int);
    let letters = chars_of(word);
    if letters.len() != to - from {
        return false;
    }
    let mut i: usize = 0;
    while i < letters.len()
        invariant
            i <= letters@.len(),
            letters@ == word@,
            letters@.len() == to - from,
            from <= to <= chars@.len(),
            text == chars@.subrange(from as int, to as int),
            forall|j: int| 0 <= j < i ==> text[j] == letters@[j],
        decreases letters@.len() - i,
    {
        if chars[from + i] != letters[i] {
            assert(text[i as int] != letters@[i as int]);
            return false;
        }
        i += 1;
    }
    assert(text =~= letters@);
    true
}

/// Takes what begins `n` bytes into the characters between `from` and `to`
/// of `content`.
fn argument(content: &str, chars: &Vec<char>, from: usize, to: usize, min: usize, n: usize) -> (arg:
    Argument)
    requires
        from <= to <= chars@.len(),
        chars@ == content@,
        n < 0x1000,
        min < 0x1000,
    ensures
        arg@ == argument_at(chars@.subrange(from as int, to as int), min as nat, n as nat),
{
    let ghost text = chars@.subrange(from as int, to as int);
    let limit: usize = if min > n {
        min
    } else {
        n
    };
    let mut bytes: usize = 0;
    let mut at: usize = from;
    let mut k: usize = from;
    let mut found: bool = n == 0;
    proof {
        assert(text.take(0) =~= Seq::<char>::empty());
    }
    while k < to && bytes < limit
        invariant
            from <= at <= k <= to <= chars@.len(),
            text == chars@.subrange(from as int, to as int),
            bytes == utf8_len(text.take(k - from)),
            bytes < limit + 4,
            limit < 0x1000,
            n <= limit,
            found ==> is_boundary(text, n as nat, at - from),
            !found ==> forall|j: int| 0 <= j <= k - from ==> !is_boundary(text, n as nat, j),
        decreases to - k,
    {
        proof {
            assert(text.take(k - from + 1).drop_last() =~= text.take(k - from));
            assert(text.take(k - from + 1).last() == chars@[k as int]);
        }
        bytes += width_of(chars[k]);
        k += 1;
        if bytes == n {
            found = true;
            at = k;
        }
    }
    proof {
        assert(text.take(to - from) =~= text);
        if k < to {
            lemma_utf8_len_grows(text, k - from, to - from);
        }
        if !found {
            assert forall|j: int| !is_boundary(text, n as nat, j) by {
                if k - from < j <= text.len() {
                    lemma_utf8_len_grows(text, k - from, j);
                }
            }
        } else {
            let chosen = choose|j: int| is_boundary(text, n as nat, j);
            if chosen < at - from {
                lemma_utf8_len_grows(text, chosen, at - from);
            } else if at - from < chosen {
                lemma_utf8_len_grows(text, at - from, chosen);
            }
            assert(text.skip(at - from) =~= chars@.subrange(at as int, to as int));
        }
    }
    if bytes < min {
        Argument::Missing
    } else if found {
        Argument::Given(String::from_str(content.substring_char(at, to)))
    } else {
        Argument::Broken
    }
}

/// Reads a message on the platform the stickers go to.
pub fn parse_discord(content: &str) -> (command: DiscordCommand)
    ensures
        command@ == discord_command(content@),
{
    let chars = chars_of(content);
    let (from, to) = trim_bounds(&chars);
    if from == to || chars[from] != '.' {
        return DiscordCommand::Other;
    }
    let ghost text = chars@.subrange(from as int, to as int);
    let end = word_end(&chars, from, to);
    proof {
        assert(text[0] == chars@[from as int]);
        assert(first_word(text).len() > 0);
        assert(first_word(text).skip(1) =~= chars@.subrange(from + 1, end as int));
    }
    if spells(&chars, from + 1, end, "set") {
        DiscordCommand::StickerSet
    } else if spells(&chars, from + 1, end, "s") || spells(&chars, from + 1, end, "sticker") {
        DiscordCommand::Sticker
    } else if spells(&chars, from + 1, end, "verify") {
        DiscordCommand::Verify(argument(content, &chars, from, to, 0, 8))
    } else {
        DiscordCommand::Other
    }
}

/// Reads a message on the platform the stickers come from.
pub fn parse_telegram(content: &str) -> (command: TelegramCommand)
    ensures
        command@ == telegram_command(content@),
{
    let chars = chars_of(content);
    let (from, to) = trim_bounds(&chars);
    if from == to || chars[from] != '/' {
        return TelegramCommand::Unknown;
    }
    let ghost text = chars@.subrange(from as int, to as int);
    let end = word_end(&chars, from, to);
    proof {
        assert(text[0] == chars@[from as int]);
        assert(first_word(text).len() > 0);
        assert(first_word(text).skip(1) =~= chars@.subrange(from + 1, end as int));
    }
    if spells(&chars, from + 1, end, "help") || spells(&chars, from + 1, end, "start") {
        TelegramCommand::Help
    } else if spells(&chars, from + 1, end, "register") {
        TelegramCommand::Register(argument(content, &chars, from, to, 11, 10))
    } else if spells(&chars, from + 1, end, "unregister") {
        TelegramCommand::Unregister
    } else {
        TelegramCommand::Unknown
    }
}

} // verus!
