//! Command-line handling of the router: splitting `/command@botname
//! args` into its parts, the help-menu table, and the rock-paper-
//! scissors round.

use vstd::prelude::*;
use vstd::string::{StrSliceExecFns, StringExecFns};
use rand::Rng;

verus! {

/// What `char::is_whitespace` holds of a character.  The exact set is
/// Unicode's `White_Space` property; the library does not restate it.
pub uninterp spec fn is_unicode_ws(c: char) -> bool;

/// Relies on `char::is_whitespace`: the `White_Space` property of the
/// character, a function of the character alone.
pub assume_specification[ char::is_whitespace ](c: char) -> (b: bool)
    ensures
        b == is_unicode_ws(c),
;

/// The first position at or after `i` holding a non-whitespace character.
pub open spec fn trim_start_idx(s: Seq<char>, i: int) -> int
    decreases s.len() - i,
    when 0 <= i <= s.len()
{
    if i < s.len() && is_unicode_ws(s[i]) {
        trim_start_idx(s, i + 1)
    } else {
        i
    }
}

/// The end of the text with trailing whitespace removed, scanning
/// down from `j`.
pub open spec fn trim_end_idx(s: Seq<char>, j: int) -> int
    decreases j,
    when 0 <= j <= s.len()
{
    if j > 0 && is_unicode_ws(s[j - 1]) {
        trim_end_idx(s, j - 1)
    } else {
        j
    }
}

/// The text with leading and trailing whitespace removed.
pub open spec fn sp_trim(s: Seq<char>) -> Seq<char> {
    let a = trim_start_idx(s, 0);
    let b = trim_end_idx(s, s.len() as int);
    if a <= b {
        s.subrange(a, b)
    } else {
        Seq::empty()
    }
}

proof fn lemma_trim_start_le(s: Seq<char>, i: int)
    requires
        0 <= i <= s.len(),
    ensures
        i <= trim_start_idx(s, i) <= s.len(),
    decreases s.len() - i,
{
    if i < s.len() && is_unicode_ws(s[i]) {
        lemma_trim_start_le(s, i + 1);
    }
}

proof fn lemma_trim_end_ge(s: Seq<char>, j: int)
    requires
        0 <= j <= s.len(),
    ensures
        0 <= trim_end_idx(s, j) <= j,
    decreases j,
{
    if j > 0 && is_unicode_ws(s[j - 1]) {
        lemma_trim_end_ge(s, j - 1);
    }
}

/// The first position at or after `i` holding `c`, or the length.
pub open spec fn first_idx(s: Seq<char>, c: char, i: int) -> int
    decreases s.len() - i,
    when 0 <= i <= s.len()
{
    if i >= s.len() {
        i
    } else if s[i] == c {
        i
    } else {
        first_idx(s, c, i + 1)
    }
}

/// Splitting a raw message: trim it; text that does not start with
/// `/` is no command and comes back whole as the argument; otherwise
/// the first word (up to any `@botname` suffix) is the command and
/// the trimmed remainder the arguments.
pub open spec fn sp_parse_cmd(s: Seq<char>) -> (Seq<char>, Seq<char>) {
    let t = sp_trim(s);
    if t.len() == 0 || t[0] != '/' {
        (Seq::empty(), t)
    } else {
        let i = first_idx(t, ' ', 0);
        let cmd_part = t.subrange(0, i);
        let args = if i < t.len() {
            sp_trim(t.subrange(i + 1, t.len() as int))
        } else {
            Seq::<char>::empty()
        };
        let j = first_idx(cmd_part, '@', 0);
        (cmd_part.subrange(0, j), args)
    }
}

/// The text with surrounding whitespace removed, following [`sp_trim`].
pub fn trim_str<'a>(s: &'a str) -> (r: &'a str)
    ensures
        r@ == sp_trim(s@),
{
    let n = s.unicode_len();
    let mut a: usize = 0;
    let mut stop = false;
    while a < n && !stop
        invariant
            a <= n,
            n == s@.len(),
            trim_start_idx(s@, 0) == if stop {
                a as int
            } else {
                trim_start_idx(s@, a as int)
            },
        decreases n - a + (if stop {
            0int
        } else {
            1int
        }),
    {
        if s.get_char(a).is_whitespace() {
            a += 1;
        } else {
            stop = true;
        }
    }
    proof {
        lemma_trim_start_le(s@, 0);
    }
    let mut b: usize = n;
    let mut stop2 = false;
    while b > 0 && !stop2
        invariant
            b <= n,
            n == s@.len(),
            trim_end_idx(s@, n as int) == if stop2 {
                b as int
            } else {
                trim_end_idx(s@, b as int)
            },
        decreases b + (if stop2 {
            0int
        } else {
            1int
        }),
    {
        if s.get_char(b - 1).is_whitespace() {
            b -= 1;
        } else {
            stop2 = true;
        }
    }
    proof {
        lemma_trim_end_ge(s@, n as int);
    }
    if a <= b {
        s.substring_char(a, b)
    } else {
        proof {
            reveal_strlit("");
            assert(""@ =~= Seq::<char>::empty());
        }
        ""
    }
}

/// The position of the first `c` in `s`, or the length if there is none.
pub fn find_char(s: &str, c: char) -> (r: usize)
    ensures
        r as int == first_idx(s@, c, 0),
        r <= s@.len(),
{
    let n = s.unicode_len();
    let mut i: usize = 0;
    let mut found = false;
    while i < n && !found
        invariant
            i <= n,
            n == s@.len(),
            first_idx(s@, c, 0) == if found {
                i as int
            } else {
                first_idx(s@, c, i as int)
            },
        decreases n - i + (if found {
            0int
        } else {
            1int
        }),
    {
        if s.get_char(i) == c {
            found = true;
        } else {
            i += 1;
        }
    }
    i
}

/// Whether two strings hold the same characters.
pub fn str_eq(a: &str, b: &str) -> (r: bool)
    ensures
        r == (a@ == b@),
{
    let n = a.unicode_len();
    let m = b.unicode_len();
    if n != m {
        return false;
    }
    let mut i: usize = 0;
    while i < n
        invariant
            i <= n,
            n == a@.len(),
            n == b@.len(),
            forall|k: int| 0 <= k < i ==> a@[k] == b@[k],
        decreases n - i,
    {
        if a.get_char(i) != b.get_char(i) {
            return false;
        }
        i += 1;
    }
    proof {
        assert(a@ =~= b@);
    }
    true
}

/// Strip `/command@botname args` into `("/command", "args")`,
/// following [`sp_parse_cmd`].
pub fn parse_cmd<'a>(text: &'a str) -> (r: (&'a str, &'a str))
    ensures
        r.0@ == sp_parse_cmd(text@).0,
        r.1@ == sp_parse_cmd(text@).1,
{
    let t = trim_str(text);
    let tn = t.unicode_len();
    proof {
        reveal_strlit("");
        assert(""@ =~= Seq::<char>::empty());
    }
    if tn == 0 {
        return ("", t);
    }
    if t.get_char(0) != '/' {
        return ("", t);
    }
    let i = find_char(t, ' ');
    let cmd_part = t.substring_char(0, i);
    let args: &'a str = if i < tn {
        trim_str(t.substring_char(i + 1, tn))
    } else {
        ""
    };
    let j = find_char(cmd_part, '@');
    let cmd = cmd_part.substring_char(0, j);
    (cmd, args)
}

/// Relies on `rand::Rng::gen_range` over `0..n`: some value below `n`.
/// Nothing more is promised of a random draw.
#[verifier::external_body]
pub(crate) fn random_below(n: usize) -> (r: usize)
    requires
        n >= 1,
    ensures
        r < n,
{
    rand::thread_rng().gen_range(0..n)
}

/// The bot's move named by a draw.
pub open spec fn sp_rps_bot_name(b: int) -> Seq<char> {
    if b == 0 {
        "rock"@
    } else if b == 1 {
        "scissors"@
    } else {
        "paper"@
    }
}

/// The whole reply of one rock-paper-scissors round, given the
/// player's text and the bot's draw.
pub open spec fn sp_rps_message(player: Seq<char>, b: int) -> Seq<char> {
    let bot_name = sp_rps_bot_name(b);
    let bot_emoji = if b == 0 {
        "✊"@
    } else if b == 1 {
        "✌️"@
    } else {
        "🖐"@
    };
    let user_emoji = if player == "rock"@ {
        "✊"@
    } else if player == "scissors"@ {
        "✌️"@
    } else {
        "🖐"@
    };
    let outcome = if player == bot_name {
        "🤝 It's a tie!"@
    } else if (player == "rock"@ && bot_name == "scissors"@) || (player == "scissors"@
        && bot_name == "paper"@) || (player == "paper"@ && bot_name == "rock"@) {
        "🎉 You win!"@
    } else {
        "😅 Bot wins!"@
    };
    "You: "@ + user_emoji + "  vs  Bot: "@ + bot_emoji + "\n\n"@ + outcome
}

/// Play one rock-paper-scissors round against a random move of the
/// bot: whatever the draw was, the reply is the message for it.
pub fn rps_result(player: &str) -> (r: String)
    ensures
        exists|b: int| 0 <= b < 3 && r@ == sp_rps_message(player@, b),
{
    let b = random_below(3);
    proof {
        reveal_strlit("rock");
        reveal_strlit("scissors");
        reveal_strlit("paper");
    }
    let bot_name: &str = if b == 0 {
        "rock"
    } else if b == 1 {
        "scissors"
    } else {
        "paper"
    };
    let bot_emoji: &str = if b == 0 {
        "✊"
    } else if b == 1 {
        "✌️"
    } else {
        "🖐"
    };
    let user_emoji: &str = if str_eq(player, "rock") {
        "✊"
    } else if str_eq(player, "scissors") {
        "✌️"
    } else {
        "🖐"
    };
    let outcome: &str = if str_eq(player, bot_name) {
        "🤝 It's a tie!"
    } else if (str_eq(player, "rock") && b == 1) || (str_eq(player, "scissors") && b == 2) || (
    str_eq(player, "paper") && b == 0) {
        "🎉 You win!"
    } else {
        "😅 Bot wins!"
    };
    let r = String::from_str("You: ").concat(user_emoji).concat("  vs  Bot: ").concat(
        bot_emoji,
    ).concat("\n\n").concat(outcome);
    proof {
        let bi = b as int;
        assert(bot_name@ == sp_rps_bot_name(bi));
        assert(r@ =~= sp_rps_message(player@, bi));
        assert(r@ == sp_rps_message(player@, bi));
    }
    r
}

/// The help-menu table: a section name to its title and body.
pub open spec fn sp_help_content(section: Seq<char>) -> (Seq<char>, Seq<char>) {
    if section == "fun"@ {
        (
            "\u{1F389} <b>Fun Commands</b>"@,
            "/dice \u{2014} Animated Telegram dice \u{1F3B2}\n/roll [N] \u{2014} Roll N-sided die (default d6)\n/flip \u{2014} Flip a coin \u{1FA99}\n/joke \u{2014} Random programming joke \u{1F602}\n/quote \u{2014} Inspiring developer quote \u{1F4AD}\n/fact \u{2014} Random tech/programming fact \u{1F913}\n/8ball &lt;question&gt; \u{2014} Magic 8-ball \u{1F3B1}\n/rps \u{2014} Rock Paper Scissors (inline buttons)\n/choose &lt;a&gt; | &lt;b&gt; | &lt;c&gt; \u{2014} Pick randomly from options\n/rate &lt;anything&gt; \u{2014} Rate something out of 10\n/password [length] \u{2014} Secure random password\n/mock &lt;text&gt; \u{2014} aLtErNaTiNg CaSe\n/clap &lt;text&gt; \u{2014} Add \u{1F44F} between words\n/shrug \u{2014} \u{AF}\\_(\u{30C4})_/\u{AF}\n/tableflip \u{2014} (\u{256F}\u{B0}\u{25A1}\u{B0}\u{FF09}\u{256F}\u{FE35} \u{253B}\u{2501}\u{253B}\n/unflip \u{2014} \u{252C}\u{2500}\u{252C}\u{30CE}( \u{BA} _ \u{BA}\u{30CE})"@,
        )
    } else if section == "util"@ {
        (
            "\u{1F527} <b>Utility Commands</b>"@,
            "/echo &lt;text&gt; \u{2014} Echo text\n/reverse &lt;text&gt; \u{2014} Reverse text\n/upper &lt;text&gt; \u{2014} UPPERCASE\n/lower &lt;text&gt; \u{2014} lowercase\n/count &lt;text&gt; \u{2014} Count chars/words/lines\n/calc &lt;expr&gt; \u{2014} Calculator (+\u{2212}\u{D7}\u{F7}^ with sqrt/abs/floor/ceil/round)\n/b64 encode/decode &lt;text&gt; \u{2014} Base64\n/repeat &lt;N&gt; &lt;text&gt; \u{2014} Repeat N times (max 10)\n/ascii &lt;text&gt; \u{2014} ASCII codes of characters\n/binary &lt;text&gt; \u{2014} Text to binary\n/time \u{2014} Current UTC time + unix timestamp\n/id \u{2014} Your Telegram ID (reply to see another user's)"@,
        )
    } else if section == "admin"@ {
        (
            "\u{1F46E} <b>Admin Commands</b> <i>(groups only, reply to a user)</i>"@,
            "/ban \u{2014} Permanently ban user\n/kick \u{2014} Kick (ban + immediate unban)\n/mute \u{2014} Remove all send permissions\n/unmute \u{2014} Restore all send permissions\n/warn [reason] \u{2014} Warn user (auto-bans at 3 warnings)\n/warns \u{2014} Check user's warning count &amp; reasons\n/clearwarns \u{2014} Clear all user's warnings\n/pin \u{2014} Pin replied message\n/unpin \u{2014} Unpin latest pinned message\n/del \u{2014} Delete replied message\n/promote \u{2014} Grant admin rights\n/demote \u{2014} Remove admin rights\n/members \u{2014} Show member count\n/invite \u{2014} Generate new invite link"@,
        )
    } else if section == "games"@ {
        (
            "\u{1F3AE} <b>Game Commands</b>"@,
            "/guess \u{2014} Start a number guessing game (1\u{2013}100, 7 attempts)\n/guess &lt;number&gt; \u{2014} Make a guess\n/giveup \u{2014} Reveal the number and end the game"@,
        )
    } else if section == "notes"@ {
        (
            "\u{1F4DD} <b>Notes Commands</b>"@,
            "/save &lt;name&gt; &lt;content&gt; \u{2014} Save a note\n/get &lt;name&gt; \u{2014} Retrieve a note\n/notes \u{2014} List all notes in this chat\n/delnote &lt;name&gt; \u{2014} Delete a note"@,
        )
    } else if section == "polls"@ {
        (
            "\u{1F4CA} <b>Poll Commands</b>"@,
            "/poll &lt;question&gt; | &lt;opt1&gt; | &lt;opt2&gt; ... \u{2014} Create a poll\n/quiz &lt;question&gt; | &lt;correct&gt; | &lt;wrong1&gt; ... \u{2014} Create a quiz\n<i>Separate everything with</i> <code>|</code>"@,
        )
    } else if section == "info"@ || section == "about"@ {
        (
            "\u{2139}\u{FE0F} <b>Info Commands</b>"@,
            "/start \u{2014} Welcome screen with links\n/help \u{2014} Interactive help menu\n/about \u{2014} About this bot &amp; library\n/ping \u{2014} Check bot response time\n/id \u{2014} Your user/chat ID\n/userinfo \u{2014} User info (reply to see another's)\n/chatinfo \u{2014} Current chat info\n/members \u{2014} Member count\n/source \u{2014} Library source links"@,
        )
    } else {
        (
            "\u{1F4DA} <b>Command Categories</b>"@,
            "Pick a category below to browse commands."@,
        )
    }
}

/// The title and body of one help section, following
/// [`sp_help_content`].
pub fn help_content(section: &str) -> (r: (&'static str, &'static str))
    ensures
        r.0@ == sp_help_content(section@).0,
        r.1@ == sp_help_content(section@).1,
{
    if str_eq(section, "fun") {
        (
            "\u{1F389} <b>Fun Commands</b>",
            "/dice \u{2014} Animated Telegram dice \u{1F3B2}\n/roll [N] \u{2014} Roll N-sided die (default d6)\n/flip \u{2014} Flip a coin \u{1FA99}\n/joke \u{2014} Random programming joke \u{1F602}\n/quote \u{2014} Inspiring developer quote \u{1F4AD}\n/fact \u{2014} Random tech/programming fact \u{1F913}\n/8ball &lt;question&gt; \u{2014} Magic 8-ball \u{1F3B1}\n/rps \u{2014} Rock Paper Scissors (inline buttons)\n/choose &lt;a&gt; | &lt;b&gt; | &lt;c&gt; \u{2014} Pick randomly from options\n/rate &lt;anything&gt; \u{2014} Rate something out of 10\n/password [length] \u{2014} Secure random password\n/mock &lt;text&gt; \u{2014} aLtErNaTiNg CaSe\n/clap &lt;text&gt; \u{2014} Add \u{1F44F} between words\n/shrug \u{2014} \u{AF}\\_(\u{30C4})_/\u{AF}\n/tableflip \u{2014} (\u{256F}\u{B0}\u{25A1}\u{B0}\u{FF09}\u{256F}\u{FE35} \u{253B}\u{2501}\u{253B}\n/unflip \u{2014} \u{252C}\u{2500}\u{252C}\u{30CE}( \u{BA} _ \u{BA}\u{30CE})",
        )
    } else if str_eq(section, "util") {
        (
            "\u{1F527} <b>Utility Commands</b>",
            "/echo &lt;text&gt; \u{2014} Echo text\n/reverse &lt;text&gt; \u{2014} Reverse text\n/upper &lt;text&gt; \u{2014} UPPERCASE\n/lower &lt;text&gt; \u{2014} lowercase\n/count &lt;text&gt; \u{2014} Count chars/words/lines\n/calc &lt;expr&gt; \u{2014} Calculator (+\u{2212}\u{D7}\u{F7}^ with sqrt/abs/floor/ceil/round)\n/b64 encode/decode &lt;text&gt; \u{2014} Base64\n/repeat &lt;N&gt; &lt;text&gt; \u{2014} Repeat N times (max 10)\n/ascii &lt;text&gt; \u{2014} ASCII codes of characters\n/binary &lt;text&gt; \u{2014} Text to binary\n/time \u{2014} Current UTC time + unix timestamp\n/id \u{2014} Your Telegram ID (reply to see another user's)",
        )
    } else if str_eq(section, "admin") {
        (
            "\u{1F46E} <b>Admin Commands</b> <i>(groups only, reply to a user)</i>",
            "/ban \u{2014} Permanently ban user\n/kick \u{2014} Kick (ban + immediate unban)\n/mute \u{2014} Remove all send permissions\n/unmute \u{2014} Restore all send permissions\n/warn [reason] \u{2014} Warn user (auto-bans at 3 warnings)\n/warns \u{2014} Check user's warning count &amp; reasons\n/clearwarns \u{2014} Clear all user's warnings\n/pin \u{2014} Pin replied message\n/unpin \u{2014} Unpin latest pinned message\n/del \u{2014} Delete replied message\n/promote \u{2014} Grant admin rights\n/demote \u{2014} Remove admin rights\n/members \u{2014} Show member count\n/invite \u{2014} Generate new invite link",
        )
    } else if str_eq(section, "games") {
        (
            "\u{1F3AE} <b>Game Commands</b>",
            "/guess \u{2014} Start a number guessing game (1\u{2013}100, 7 attempts)\n/guess &lt;number&gt; \u{2014} Make a guess\n/giveup \u{2014} Reveal the number and end the game",
        )
    } else if str_eq(section, "notes") {
        (
            "\u{1F4DD} <b>Notes Commands</b>",
            "/save &lt;name&gt; &lt;content&gt; \u{2014} Save a note\n/get &lt;name&gt; \u{2014} Retrieve a note\n/notes \u{2014} List all notes in this chat\n/delnote &lt;name&gt; \u{2014} Delete a note",
        )
    } else if str_eq(section, "polls") {
        (
            "\u{1F4CA} <b>Poll Commands</b>",
            "/poll &lt;question&gt; | &lt;opt1&gt; | &lt;opt2&gt; ... \u{2014} Create a poll\n/quiz &lt;question&gt; | &lt;correct&gt; | &lt;wrong1&gt; ... \u{2014} Create a quiz\n<i>Separate everything with</i> <code>|</code>",
        )
    } else if str_eq(section, "info") || str_eq(section, "about") {
        (
            "\u{2139}\u{FE0F} <b>Info Commands</b>",
            "/start \u{2014} Welcome screen with links\n/help \u{2014} Interactive help menu\n/about \u{2014} About this bot &amp; library\n/ping \u{2014} Check bot response time\n/id \u{2014} Your user/chat ID\n/userinfo \u{2014} User info (reply to see another's)\n/chatinfo \u{2014} Current chat info\n/members \u{2014} Member count\n/source \u{2014} Library source links",
        )
    } else {
        (
            "\u{1F4DA} <b>Command Categories</b>",
            "Pick a category below to browse commands.",
        )
    }
}

} // verus!
