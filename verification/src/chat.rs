//! Chat: the client's chat window, and how the server reads the commands
//! players type.
use vstd::prelude::*;

use crate::common::ChatChannel;
use crate::text::{chars_of, concat_str, string_from_chars};

verus! {

/// Whether `c` is white space (the Unicode `White_Space` property, which
/// `char::is_whitespace` tests).
pub open spec fn is_white_space(c: char) -> bool {
    let v = c as u32;
    ||| 0x9 <= v <= 0xD
    ||| v == 0x20
    ||| v == 0x85
    ||| v == 0xA0
    ||| v == 0x1680
    ||| 0x2000 <= v <= 0x200A
    ||| v == 0x2028
    ||| v == 0x2029
    ||| v == 0x202F
    ||| v == 0x205F
    ||| v == 0x3000
}

/// Whether `c` is white space.
pub fn white_space(c: char) -> (r: bool)
    ensures
        r == is_white_space(c),
{
    let v = c as u32;
    (0x9 <= v && v <= 0xD) || v == 0x20 || v == 0x85 || v == 0xA0 || v == 0x1680 || (0x2000 <= v && v
        <= 0x200A) || v == 0x2028 || v == 0x2029 || v == 0x202F || v == 0x205F || v == 0x3000
}

/// `s` without its leading white space.
pub open spec fn trim_start(s: Seq<char>) -> Seq<char>
    decreases s.len(),
{
    if s.len() > 0 && is_white_space(s[0]) {
        trim_start(s.drop_first())
    } else {
        s
    }
}

/// `s` without its trailing white space.
pub open spec fn trim_end(s: Seq<char>) -> Seq<char>
    decreases s.len(),
{
    if s.len() > 0 && is_white_space(s.last()) {
        trim_end(s.drop_last())
    } else {
        s
    }
}

/// `s` without leading or trailing white space, as `str::trim` gives it.
pub open spec fn trim(s: Seq<char>) -> Seq<char> {
    trim_end(trim_start(s))
}

/// The characters of `s` without leading or trailing white space.
pub fn trim_chars(s: &Vec<char>) -> (r: Vec<char>)
    ensures
        r@ == trim(s@),
{
    let mut i: usize = 0;
    assert(s@.skip(0) =~= s@);
    while i < s.len() && white_space(s[i])
        invariant
            i <= s@.len(),
            trim_start(s@) == trim_start(s@.skip(i as int)),
        decreases s@.len() - i,
    {
        assert(s@.skip(i as int).drop_first() =~= s@.skip(i as int + 1));
        i = i + 1;
    }
    let ghost started = s@.skip(i as int);
    assert(trim_start(s@) == started);
    let mut j: usize = s.len();
    while j > i && white_space(s[j - 1])
        invariant
            i <= j <= s@.len(),
            trim_end(started) == trim_end(s@.subrange(i as int, j as int)),
            started == s@.subrange(i as int, s@.len() as int),
        decreases j,
    {
        assert(s@.subrange(i as int, j as int).drop_last() =~= s@.subrange(i as int, j as int - 1));
        j = j - 1;
    }
    let mut r: Vec<char> = Vec::new();
    let mut k: usize = i;
    while k < j
        invariant
            i <= k <= j <= s@.len(),
            r@ == s@.subrange(i as int, k as int),
        decreases j - k,
    {
        r.push(s[k]);
        assert(s@.subrange(i as int, k as int + 1) =~= s@.subrange(i as int, k as int).push(s@[k as int]));
        k = k + 1;
    }
    assert(started =~= s@.subrange(i as int, s@.len() as int));
    r
}

/// Whether `s` begins with `prefix`.
pub open spec fn starts_with(s: Seq<char>, prefix: Seq<char>) -> bool {
    prefix.len() <= s.len() && s.take(prefix.len() as int) == prefix
}

/// Index of the last `c` in `s`, or -1.
pub open spec fn last_index_of(s: Seq<char>, c: char) -> int
    decreases s.len(),
{
    if s.len() == 0 {
        -1
    } else if s.last() == c {
        s.len() - 1
    } else {
        last_index_of(s.drop_last(), c)
    }
}

/// The value of a string of decimal digits.
pub open spec fn digits_value(d: Seq<char>) -> int
    decreases d.len(),
{
    if d.len() == 0 {
        0
    } else {
        digits_value(d.drop_last()) * 10 + (d.last() as int - '0' as int)
    }
}

pub open spec fn is_digit(c: char) -> bool {
    '0' as int <= c as int <= '9' as int
}

/// `s` as `u32::from_str` reads it: an optional `+`, then one or more
/// decimal digits, with a value that fits.
pub open spec fn parse_u32(s: Seq<char>) -> Option<u32> {
    let d = unsigned_digits(s);
    if d.len() > 0 && all_digits(d) && digits_value(d) <= u32::MAX {
        Some(digits_value(d) as u32)
    } else {
        None
    }
}

/// The digits of a number, after an optional `+`.
pub open spec fn unsigned_digits(s: Seq<char>) -> Seq<char> {
    if s.len() > 0 && s[0] == '+' {
        s.drop_first()
    } else {
        s
    }
}

pub open spec fn all_digits(d: Seq<char>) -> bool {
    forall|i: int| 0 <= i < d.len() ==> is_digit(#[trigger] d[i])
}

/// Digits only add to the value read so far.
pub proof fn lemma_digits_grow(d: Seq<char>, n: int)
    requires
        0 <= n <= d.len(),
        forall|i: int| 0 <= i < d.len() ==> is_digit(#[trigger] d[i]),
    ensures
        digits_value(d) >= digits_value(d.take(n)),
        digits_value(d.take(n)) >= 0,
    decreases d.len() - n,
{
    if n < d.len() {
        lemma_digits_grow(d, n + 1);
        assert(d.take(n + 1).drop_last() =~= d.take(n));
        assert(d.take(n + 1).last() == d[n]);
        assert(is_digit(d[n]));
    } else {
        assert(d.take(n) =~= d);
        lemma_digits_nonnegative(d);
    }
}

pub proof fn lemma_digits_nonnegative(d: Seq<char>)
    requires
        forall|i: int| 0 <= i < d.len() ==> is_digit(#[trigger] d[i]),
    ensures
        digits_value(d) >= 0,
    decreases d.len(),
{
    if d.len() > 0 {
        let e = d.drop_last();
        assert forall|i: int| 0 <= i < e.len() implies is_digit(#[trigger] e[i]) by {
            assert(e[i] == d[i]);
        }
        lemma_digits_nonnegative(e);
        assert(is_digit(d[d.len() - 1]));
    }
}

/// Reads a sprite number the way `u32::from_str` does.
pub fn parse_u32_chars(s: &Vec<char>) -> (r: Option<u32>)
    ensures
        r == parse_u32(s@),
{
    let start: usize = if s.len() > 0 && s[0] == '+' { 1 } else { 0 };
    let ghost d = unsigned_digits(s@);
    assert(d =~= s@.skip(start as int));
    if start == s.len() {
        return None;
    }
    let mut value: u64 = 0;
    let mut i: usize = start;
    while i < s.len()
        invariant
            start <= i <= s@.len(),
            d == s@.skip(start as int),
            d == unsigned_digits(s@),
            forall|k: int| 0 <= k < i - start ==> is_digit(#[trigger] d[k]),
            value == digits_value(d.take(i - start)),
            value <= u32::MAX,
        decreases s@.len() - i,
    {
        let c = s[i];
        assert(d[i - start] == c);
        if !('0' <= c && c <= '9') {
            assert(!is_digit(d[i - start]));
            assert(!all_digits(d));
            assert(parse_u32(s@) is None);
            return None;
        }
        let ghost n = (i - start) as int;
        assert(d.take(n + 1).drop_last() =~= d.take(n));
        assert(d.take(n + 1).last() == c);
        let digit = (c as u32 - '0' as u32) as u64;
        value = value * 10 + digit;
        assert(value == digits_value(d.take(n + 1)));
        if value > 0xFFFF_FFFF {
            proof {
                if all_digits(d) {
                    lemma_digits_grow(d, n + 1);
                }
                assert(parse_u32(s@) is None);
            }
            return None;
        }
        i = i + 1;
    }
    assert(d.take(d.len() as int) =~= d);
    Some(value as u32)
}

/// A chat line that the server reads as a command, before it looks anybody up.
#[derive(Clone, Debug, PartialEq, Eq)]
pub enum ChatCommand {
    /// The line is no command and goes to the chat.
    NotACommand,
    /// `/warp <map id>`: move to that map.
    Warp(String),
    /// `/warp` without a map id.
    WarpUsage,
    /// `/sprite <player name> <sprite #>`: change a player's sprite.
    Sprite { who: String, sprite: u32 },
    /// `/sprite` with arguments it cannot read; the reason is given.
    SpriteError(String),
}

/// A command as its characters and numbers.
pub ghost enum CommandView {
    NotACommand,
    Warp(Seq<char>),
    WarpUsage,
    Sprite(Seq<char>, u32),
    SpriteError(Seq<char>),
}

impl View for ChatCommand {
    type V = CommandView;

    open spec fn view(&self) -> CommandView {
        match self {
            ChatCommand::NotACommand => CommandView::NotACommand,
            ChatCommand::Warp(m) => CommandView::Warp(m@),
            ChatCommand::WarpUsage => CommandView::WarpUsage,
            ChatCommand::Sprite { who, sprite } => CommandView::Sprite(who@, *sprite),
            ChatCommand::SpriteError(e) => CommandView::SpriteError(e@),
        }
    }
}

/// The reason given when `/sprite` has no space between its arguments.
pub open spec fn wrong_arguments() -> Seq<char> {
    "Wrong number of arguments"@
}

/// The reason given when the sprite is not a number.
pub open spec fn invalid_sprite() -> Seq<char> {
    "Invalid sprite, it must be a number"@
}

/// How the server reads a chat line: a line starting with `/warp` or
/// `/sprite` is a command, whose arguments are the rest of the line with
/// white space trimmed. `/sprite` splits them at their last space into a
/// player name and a sprite number.
pub open spec fn spec_parse_command(line: Seq<char>) -> CommandView {
    if starts_with(line, "/warp"@) {
        let args = trim(line.skip(5));
        if args.len() == 0 {
            CommandView::WarpUsage
        } else {
            CommandView::Warp(args)
        }
    } else if starts_with(line, "/sprite"@) {
        let args = trim(line.skip(7));
        let k = last_index_of(args, ' ');
        if k < 0 {
            CommandView::SpriteError(wrong_arguments())
        } else {
            match parse_u32(args.skip(k + 1)) {
                Some(n) => CommandView::Sprite(args.take(k), n),
                None => CommandView::SpriteError(invalid_sprite()),
            }
        }
    } else {
        CommandView::NotACommand
    }
}

/// `/warp` followed by a space and a map id warps to exactly that map id,
/// spaces inside it included: only the white space around the id is
/// dropped.
pub proof fn law_warp_takes_the_whole_id(id: Seq<char>)
    requires
        id.len() > 0,
        !is_white_space(id[0]),
        !is_white_space(id.last()),
    ensures
        spec_parse_command("/warp "@ + id) == CommandView::Warp(id),
{
    reveal_strlit("/warp ");
    reveal_strlit("/warp");
    let line = "/warp "@ + id;
    assert(line.take(5) =~= "/warp"@);
    let rest = line.skip(5);
    assert(rest.drop_first() =~= id);
    assert(is_white_space(rest[0]));
    assert(trim_start(rest) == trim_start(id));
    assert(trim_start(id) == id);
    assert(trim_end(id) == id);
}

/// Characters after the last `c` do not move where the last `c` is.
pub proof fn lemma_last_index_after(a: Seq<char>, b: Seq<char>, c: char)
    requires
        !b.contains(c),
    ensures
        last_index_of(a + b, c) == last_index_of(a, c),
    decreases b.len(),
{
    if b.len() == 0 {
        assert(a + b =~= a);
    } else {
        assert((a + b).drop_last() =~= a + b.drop_last());
        assert((a + b).last() == b.last());
        assert(b.contains(b.last()) ==> b.last() != c);
        assert(b.contains(b[b.len() - 1]));
        assert(!b.drop_last().contains(c)) by {
            if b.drop_last().contains(c) {
                let k = choose|k: int| 0 <= k < b.drop_last().len() && b.drop_last()[k] == c;
                assert(b[k] == c);
            }
        }
        lemma_last_index_after(a, b.drop_last(), c);
    }
}

/// `/sprite` followed by a player name and a sprite number, each after one
/// space, names that player, spaces inside the name included, and gives it
/// the number read in decimal; a number that cannot be read is refused.
pub proof fn law_sprite_splits_at_last_space(who: Seq<char>, number: Seq<char>)
    requires
        who.len() > 0,
        !is_white_space(who[0]),
        number.len() > 0,
        !number.contains(' '),
        !is_white_space(number.last()),
    ensures
        spec_parse_command("/sprite "@ + who + " "@ + number) == (match parse_u32(number) {
            Some(n) => CommandView::Sprite(who, n),
            None => CommandView::SpriteError(invalid_sprite()),
        }),
{
    reveal_strlit("/sprite ");
    reveal_strlit("/sprite");
    reveal_strlit("/warp");
    reveal_strlit(" ");
    let line = "/sprite "@ + who + " "@ + number;
    assert(line.take(5) != "/warp"@) by {
        assert(line.take(5)[1] == 's');
    }
    assert(line.take(7) =~= "/sprite"@);
    let rest = line.skip(7);
    let args = who + " "@ + number;
    assert(rest.drop_first() =~= args);
    assert(is_white_space(rest[0]));
    assert(trim_start(rest) == trim_start(args));
    assert(args[0] == who[0]);
    assert(trim_start(args) == args);
    assert(args.last() == number.last());
    assert(trim_end(args) == args);
    let lead = who + " "@;
    assert(lead + number =~= args);
    lemma_last_index_after(lead, number, ' ');
    assert(lead.last() == ' ');
    assert(last_index_of(lead, ' ') == who.len());
    assert(args.skip(who.len() as int + 1) =~= number);
    assert(args.take(who.len() as int) =~= who);
}

/// Whether `s` begins with the characters of `prefix`.
pub(crate) fn has_prefix(s: &Vec<char>, prefix: &str) -> (r: bool)
    ensures
        r == starts_with(s@, prefix@),
{
    let p = chars_of(prefix);
    if p.len() > s.len() {
        return false;
    }
    let mut i: usize = 0;
    while i < p.len()
        invariant
            p@ == prefix@,
            p@.len() <= s@.len(),
            i <= p@.len(),
            forall|k: int| 0 <= k < i ==> s@[k] == p@[k],
        decreases p@.len() - i,
    {
        if s[i] != p[i] {
            assert(s@.take(p@.len() as int)[i as int] != p@[i as int]);
            return false;
        }
        i = i + 1;
    }
    assert(s@.take(p@.len() as int) =~= p@);
    true
}

/// The characters of `s` from index `start` on.
fn tail_from(s: &Vec<char>, start: usize) -> (r: Vec<char>)
    requires
        start <= s@.len(),
    ensures
        r@ == s@.skip(start as int),
{
    let mut r: Vec<char> = Vec::new();
    let mut k: usize = start;
    while k < s.len()
        invariant
            start <= k <= s@.len(),
            r@ == s@.subrange(start as int, k as int),
        decreases s@.len() - k,
    {
        r.push(s[k]);
        assert(s@.subrange(start as int, k as int + 1) =~= s@.subrange(start as int, k as int).push(s@[k as int]));
        k = k + 1;
    }
    r
}

/// The characters of `s` before index `end`.
fn head_until(s: &Vec<char>, end: usize) -> (r: Vec<char>)
    requires
        end <= s@.len(),
    ensures
        r@ == s@.take(end as int),
{
    let mut r: Vec<char> = Vec::new();
    let mut k: usize = 0;
    while k < end
        invariant
            k <= end <= s@.len(),
            r@ == s@.take(k as int),
        decreases end - k,
    {
        r.push(s[k]);
        assert(s@.take(k as int + 1) =~= s@.take(k as int).push(s@[k as int]));
        k = k + 1;
    }
    r
}

/// Index of the last space in `s`, if there is one.
fn last_space(s: &Vec<char>) -> (r: Option<usize>)
    ensures
        match r {
            Some(k) => k == last_index_of(s@, ' ') && k < s@.len(),
            None => last_index_of(s@, ' ') == -1,
        },
{
    let mut j: usize = s.len();
    assert(s@.take(s@.len() as int) =~= s@);
    while j > 0
        invariant
            j <= s@.len(),
            last_index_of(s@, ' ') == last_index_of(s@.take(j as int), ' '),
        decreases j,
    {
        assert(s@.take(j as int).last() == s@[j - 1]);
        assert(s@.take(j as int).drop_last() =~= s@.take(j as int - 1));
        if s[j - 1] == ' ' {
            return Some(j - 1);
        }
        j = j - 1;
    }
    None
}

/// Reads a chat line as a command, or as no command.
pub fn parse_command(line: &str) -> (c: ChatCommand)
    ensures
        c@ == spec_parse_command(line@),
{
    proof {
        reveal_strlit("/warp");
        reveal_strlit("/sprite");
        reveal_strlit("Wrong number of arguments");
        reveal_strlit("Invalid sprite, it must be a number");
    }
    let s = chars_of(line);
    if has_prefix(&s, "/warp") {
        let args = trim_chars(&tail_from(&s, 5));
        if args.len() == 0 {
            ChatCommand::WarpUsage
        } else {
            let c = ChatCommand::Warp(string_from_chars(args.as_slice()));
            c
        }
    } else if has_prefix(&s, "/sprite") {
        let args = trim_chars(&tail_from(&s, 7));
        match last_space(&args) {
            None => {
                ChatCommand::SpriteError("Wrong number of arguments".to_owned())
            },
            Some(k) => {
                assert(k < args@.len());
                let alen = args.len();
                let number = tail_from(&args, k + 1);
                match parse_u32_chars(&number) {
                    Some(n) => {
                        let who = head_until(&args, k);
                        ChatCommand::Sprite { who: string_from_chars(who.as_slice()), sprite: n }
                    },
                    None => {
                        ChatCommand::SpriteError("Invalid sprite, it must be a number".to_owned())
                    },
                }
            },
        }
    } else {
        ChatCommand::NotACommand
    }
}

/// How the client shows a chat line of a channel: tagged with the channel,
/// except lines that only concern this player.
pub open spec fn display_text(channel: ChatChannel, message: Seq<char>) -> Seq<char> {
    match channel {
        ChatChannel::Echo => message,
        ChatChannel::Error => message,
        ChatChannel::Server => "[Server] "@ + message,
        ChatChannel::Say => "[Say] "@ + message,
        ChatChannel::Global => "[Global] "@ + message,
    }
}

/// The text the chat window shows for a line.
pub fn display_line(channel: ChatChannel, message: &str) -> (r: String)
    ensures
        r@ == display_text(channel, message@),
{
    match channel {
        ChatChannel::Echo | ChatChannel::Error => {
            proof {
                reveal_strlit("");
                assert(""@ + message@ =~= message@);
            }
            concat_str("", message)
        },
        ChatChannel::Server => concat_str("[Server] ", message),
        ChatChannel::Say => concat_str("[Say] ", message),
        ChatChannel::Global => concat_str("[Global] ", message),
    }
}

/// The client's chat window: the lines received, the line being typed,
/// and the line waiting to be sent.
pub struct ChatWindow {
    buffer: Vec<(ChatChannel, String)>,
    channel: ChatChannel,
    message: String,
    send_message: Option<(ChatChannel, String)>,
}

impl ChatWindow {
    pub closed spec fn lines(self) -> Seq<(ChatChannel, Seq<char>)> {
        self.buffer@.map_values(|l: (ChatChannel, String)| (l.0, l.1@))
    }

    pub closed spec fn draft(self) -> Seq<char> {
        self.message@
    }

    pub closed spec fn spec_channel(self) -> ChatChannel {
        self.channel
    }

    pub closed spec fn pending(self) -> Option<(ChatChannel, Seq<char>)> {
        match self.send_message {
            Some(m) => Some((m.0, m.1@)),
            None => None,
        }
    }

    /// An empty window that says things aloud.
    pub fn new() -> (w: ChatWindow)
        ensures
            w.lines() == Seq::<(ChatChannel, Seq<char>)>::empty(),
            w.spec_channel() == ChatChannel::Say,
            w.draft() == Seq::<char>::empty(),
            w.pending() is None,
    {
        let w = ChatWindow { buffer: Vec::new(), channel: ChatChannel::Say, message: String::new(), send_message: None };
        assert(w.lines() =~= Seq::<(ChatChannel, Seq<char>)>::empty());
        w
    }

    /// Adds a received line at the bottom of the window.
    pub fn insert(&mut self, channel: ChatChannel, message: String)
        ensures
            final(self).lines() == old(self).lines().push((channel, message@)),
            final(self).spec_channel() == old(self).spec_channel(),
            final(self).draft() == old(self).draft(),
            final(self).pending() == old(self).pending(),
    {
        let ghost m = message@;
        self.buffer.push((channel, message));
        assert(self.lines() =~= old(self).lines().push((channel, m)));
    }

    /// Takes the line the player sent, if there is one; the next call gives
    /// nothing until the player sends again.
    pub fn message(&mut self) -> (r: Option<(ChatChannel, String)>)
        ensures
            match r {
                Some(m) => old(self).pending() == Some((m.0, m.1@)),
                None => old(self).pending() is None,
            },
            final(self).pending() is None,
            final(self).lines() == old(self).lines(),
            final(self).spec_channel() == old(self).spec_channel(),
            final(self).draft() == old(self).draft(),
    {
        let r = self.send_message.take();
        r
    }

    /// The lines received so far, oldest first.
    pub fn buffer(&self) -> (b: &Vec<(ChatChannel, String)>)
        ensures
            b@.map_values(|l: (ChatChannel, String)| (l.0, l.1@)) == self.lines(),
    {
        &self.buffer
    }

    /// The line being typed.
    pub fn draft_text(&self) -> (d: &str)
        ensures
            d@ == self.draft(),
    {
        self.message.as_str()
    }

    /// Replaces the line being typed.
    pub fn set_draft(&mut self, text: String)
        ensures
            final(self).draft() == text@,
            final(self).lines() == old(self).lines(),
            final(self).spec_channel() == old(self).spec_channel(),
            final(self).pending() == old(self).pending(),
    {
        self.message = text;
    }

    /// Sends the line being typed on the window's channel: it waits to be
    /// taken by `message`, and the typing line is emptied.
    pub fn submit(&mut self)
        ensures
            final(self).pending() == Some((old(self).spec_channel(), old(self).draft())),
            final(self).draft() == Seq::<char>::empty(),
            final(self).lines() == old(self).lines(),
            final(self).spec_channel() == old(self).spec_channel(),
    {
        let mut text = String::new();
        std::mem::swap(&mut self.message, &mut text);
        self.send_message = Some((self.channel, text));
    }
}

/// A line sent from the window is taken exactly once, as it was typed.
pub proof fn law_submit_then_take(typed: ChatWindow, sent: ChatWindow, taken: ChatWindow, r: Option<(ChatChannel, Seq<char>)>)
    requires
        sent.pending() == Some((typed.spec_channel(), typed.draft())),
        r == sent.pending(),
        taken.pending() is None,
    ensures
        r == Some((typed.spec_channel(), typed.draft())),
        taken.pending() is None,
{
}

} // verus!
