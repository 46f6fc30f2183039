//! Laws of slash commands: what is read from the input, and what it asks for.

use vstd::prelude::*;

use crate::command::{
    parsed_slash, requested_action, CommandActionView, CommandError, SlashCommandView,
    SlashParseError,
};
use crate::text::{self, blank};

verus! {

/// Text without whitespace at either end; it may be empty.
pub open spec fn trimmed(s: Seq<char>) -> bool {
    s.len() > 0 ==> !text::whitespace(s[0]) && !text::whitespace(s.last())
}

/// Text without any whitespace.
pub open spec fn solid(s: Seq<char>) -> bool {
    forall|i: int| 0 <= i < s.len() ==> !text::whitespace(#[trigger] s[i])
}

/// A command as it may be typed: a slash, a word and arguments, with whitespace
/// between and around them.
pub open spec fn typed(
    before: Seq<char>,
    word: Seq<char>,
    gap: Seq<char>,
    arguments: Seq<char>,
    after: Seq<char>,
) -> Seq<char> {
    before + seq!['/'] + word + gap + arguments + after
}

/// A command is read as its word, in lower case, and its arguments, word for word;
/// the whitespace between and around them is no part of it.
pub proof fn law_commands_are_read_whole(
    before: Seq<char>,
    word: Seq<char>,
    gap: Seq<char>,
    arguments: Seq<char>,
    after: Seq<char>,
)
    requires
        blank(before),
        blank(gap),
        blank(after),
        word.len() > 0,
        solid(word),
        trimmed(arguments),
        arguments.len() > 0 ==> gap.len() > 0,
    ensures
        parsed_slash(typed(before, word, gap, arguments, after)) == Some(
            Ok::<SlashCommandView, SlashParseError>(
                SlashCommandView { name: text::lower(word), arguments },
            ),
        ),
{
    let input = typed(before, word, gap, arguments, after);
    let slash = seq!['/'];
    assert(!text::whitespace('/'));
    if arguments.len() == 0 {
        let core = slash + word;
        let tail = gap + after;
        assert forall|i: int| 0 <= i < tail.len() implies text::whitespace(#[trigger] tail[i]) by {
            if i < gap.len() {
                assert(tail[i] == gap[i]);
            } else {
                assert(tail[i] == after[i - gap.len()]);
            }
        }
        assert(core.last() == word.last());
        assert(input =~= before + core + tail);
        text::law_trimming_keeps_the_text(before, core, tail);
        assert(core.drop_first() =~= word + Seq::empty());
        text::law_the_first_word_ends_at_whitespace(word, Seq::empty());
        assert(arguments =~= Seq::empty());
        text::law_trimming_keeps_the_text(Seq::empty(), arguments, Seq::empty());
        assert(Seq::<char>::empty() + arguments =~= arguments);
    } else {
        let rest = gap + arguments;
        let core = slash + word + rest;
        assert(core.last() == arguments.last());
        assert(core[0] == '/');
        assert(input =~= before + core + after);
        text::law_trimming_keeps_the_text(before, core, after);
        assert(core.drop_first() =~= word + rest);
        assert(rest[0] == gap[0]);
        text::law_the_first_word_ends_at_whitespace(word, rest);
        text::law_trimming_keeps_the_text(gap, arguments, Seq::empty());
    }
}

/// A slash with nothing behind it, or with whitespace, names no command; and what
/// does not begin with a slash is none.
pub proof fn law_a_slash_needs_a_word(before: Seq<char>, said: Seq<char>, after: Seq<char>)
    requires
        blank(before),
        blank(after),
        trimmed(said),
    ensures
        parsed_slash(before + seq!['/'] + after) == Some(
            Err::<SlashCommandView, SlashParseError>(SlashParseError::MissingName),
        ),
        said.len() == 0 || said[0] != '/' ==> parsed_slash(before + said + after) is None,
{
    let slash = seq!['/'];
    assert(!text::whitespace('/'));
    assert(slash.last() == '/');
    text::law_trimming_keeps_the_text(before, slash, after);
    assert(slash.drop_first() =~= Seq::empty());
    assert(text::first_word(Seq::<char>::empty()) =~= Seq::empty());
    text::law_trimming_keeps_the_text(before, said, after);
}

/// What a command with this name and these arguments asks for.
pub open spec fn asked(name: Seq<char>, arguments: Seq<char>) -> Result<
    CommandActionView,
    CommandError,
> {
    requested_action(SlashCommandView { name, arguments })
}

/// The arguments hold none of the characters that would break a line.
pub open spec fn one_line(arguments: Seq<char>) -> bool {
    forall|i: int|
        0 <= i < arguments.len() ==> #[trigger] arguments[i] != '\r' && arguments[i] != '\n'
            && arguments[i] != '\0'
}

pub proof fn lemma_one_line(arguments: Seq<char>)
    ensures
        text::breaks_line(arguments) <==> !one_line(arguments),
{
    let p = |c: char| text::line_breaking(c);
    if text::breaks_line(arguments) {
        let i = choose|i: int| 0 <= i < arguments.len() && p(#[trigger] arguments[i]);
        assert(arguments[i] == '\r' || arguments[i] == '\n' || arguments[i] == '\0');
    } else {
        assert forall|i: int| 0 <= i < arguments.len() implies #[trigger] arguments[i] != '\r'
            && arguments[i] != '\n' && arguments[i] != '\0' by {
            assert(!p(arguments[i]));
        }
    }
}

/// The names of commands are different words.
proof fn lemma_names()
    ensures
        "join"@.len() == 4 && "join"@[0] == 'j',
        "part"@.len() == 4 && "part"@[0] == 'p',
        "query"@.len() == 5 && "query"@[0] == 'q',
        "close"@.len() == 5 && "close"@[0] == 'c',
        "nick"@.len() == 4 && "nick"@[0] == 'n',
        "away"@.len() == 4 && "away"@[0] == 'a',
        "back"@.len() == 4 && "back"@[0] == 'b',
        "connect"@.len() == 7,
        "reconnect"@.len() == 9,
        "disconnect"@.len() == 10,
        "quit"@.len() == 4 && "quit"@[0] == 'q',
{
    reveal_strlit("join");
    reveal_strlit("part");
    reveal_strlit("query");
    reveal_strlit("close");
    reveal_strlit("nick");
    reveal_strlit("away");
    reveal_strlit("back");
    reveal_strlit("connect");
    reveal_strlit("reconnect");
    reveal_strlit("disconnect");
    reveal_strlit("quit");
}

/// Each command that takes one name asks for just that name, if it can be one.
pub proof fn law_commands_about_one_name(arguments: Seq<char>)
    requires
        one_line(arguments),
    ensures
        ({
            let visible = forall|i: int|
                0 <= i < arguments.len() ==> !text::whitespace(#[trigger] arguments[i])
                    && !text::control(arguments[i]);
            let channel = arguments.len() >= 2 && (arguments[0] == '#' || arguments[0] == '&')
                && visible && forall|i: int|
                0 <= i < arguments.len() ==> #[trigger] arguments[i] != ',' && arguments[i] != ':';
            let plain = arguments.len() > 0 && !("$:#&+%~"@.contains(arguments[0])) && forall|
                i: int,
            |
                0 <= i < arguments.len() ==> !(",*?!@."@.contains(#[trigger] arguments[i]));
            &&& channel ==> asked("join"@, arguments) == Ok::<_, CommandError>(
                CommandActionView::Join(arguments),
            )
            &&& !channel ==> asked("join"@, arguments) == Err::<CommandActionView, _>(
                CommandError::InvalidArguments,
            )
            &&& plain && visible ==> asked("query"@, arguments) == Ok::<_, CommandError>(
                CommandActionView::Query(arguments),
            )
            &&& !(plain && visible) ==> asked("query"@, arguments) == Err::<CommandActionView, _>(
                CommandError::InvalidArguments,
            )
            &&& plain && solid(arguments) ==> asked("nick"@, arguments) == Ok::<_, CommandError>(
                CommandActionView::Nick(arguments),
            )
            &&& !(plain && solid(arguments)) ==> asked("nick"@, arguments) == Err::<
                CommandActionView,
                _,
            >(CommandError::InvalidArguments)
        }),
{
    lemma_names();
    lemma_one_line(arguments);
    reveal_strlit("$:#&+%~");
    reveal_strlit(",*?!@.");
    let prefixes = "$:#&+%~"@;
    let forbidden = ",*?!@."@;
    assert forall|c: char| #[trigger] prefixes.contains(c) == crate::model::nickname_prefix(c) by {
        assert(prefixes[0] == '$' && prefixes[1] == ':' && prefixes[2] == '#' && prefixes[3] == '&'
            && prefixes[4] == '+' && prefixes[5] == '%' && prefixes[6] == '~');
    }
    assert forall|c: char| #[trigger]
        forbidden.contains(c) == crate::model::nickname_forbidden(c) by {
        assert(forbidden[0] == ',' && forbidden[1] == '*' && forbidden[2] == '?' && forbidden[3]
            == '!' && forbidden[4] == '@' && forbidden[5] == '.');
    }
    lemma_solid(arguments);
    let bad = |c: char| crate::model::nickname_forbidden(c);
    assert(text::free_of(arguments, bad) <==> forall|i: int|
        0 <= i < arguments.len() ==> !(forbidden.contains(#[trigger] arguments[i]))) by {
        if text::free_of(arguments, bad) {
            assert forall|i: int| 0 <= i < arguments.len() implies !(forbidden.contains(
                #[trigger] arguments[i],
            )) by {
                assert(!bad(arguments[i]));
            }
        }
    }
}

proof fn lemma_solid(s: Seq<char>)
    ensures
        text::has_space(s) <==> !solid(s),
{
    let p = |c: char| text::whitespace(c);
    if text::has_space(s) {
        let i = choose|i: int| 0 <= i < s.len() && p(#[trigger] s[i]);
        assert(text::whitespace(s[i]));
    } else {
        assert forall|i: int| 0 <= i < s.len() implies !text::whitespace(#[trigger] s[i]) by {
            assert(!p(s[i]));
        }
    }
}

/// The commands about the connection and about ourselves take what stands behind
/// them, or nothing where nothing may stand there.
pub proof fn law_commands_about_the_connection(arguments: Seq<char>)
    requires
        one_line(arguments),
    ensures
        ({
            let given = if arguments.len() > 0 {
                Some(arguments)
            } else {
                None
            };
            let invalid = Err::<CommandActionView, _>(CommandError::InvalidArguments);
            &&& asked("away"@, arguments) == Ok::<_, CommandError>(CommandActionView::Away(given))
            &&& asked("disconnect"@, arguments) == Ok::<_, CommandError>(
                CommandActionView::Disconnect(arguments),
            )
            &&& asked("quit"@, arguments) == Ok::<_, CommandError>(
                CommandActionView::Disconnect(arguments),
            )
            &&& arguments.len() == 0 ==> {
                &&& asked("back"@, arguments) == Ok::<_, CommandError>(CommandActionView::Back)
                &&& asked("close"@, arguments) == Ok::<_, CommandError>(CommandActionView::Close)
            }
            &&& arguments.len() > 0 ==> {
                &&& asked("back"@, arguments) == invalid
                &&& asked("close"@, arguments) == invalid
            }
            &&& solid(arguments) ==> {
                &&& asked("connect"@, arguments) == Ok::<_, CommandError>(
                    CommandActionView::Connect(given),
                )
                &&& asked("reconnect"@, arguments) == Ok::<_, CommandError>(
                    CommandActionView::Reconnect(given),
                )
            }
            &&& !solid(arguments) ==> {
                &&& asked("connect"@, arguments) == invalid
                &&& asked("reconnect"@, arguments) == invalid
            }
        }),
{
    lemma_names();
    lemma_one_line(arguments);
    lemma_solid(arguments);
}

/// Leaving names a channel where the first word begins like one, and the rest is the
/// reason; without a channel all of it is the reason.
pub proof fn law_leaving_names_a_channel_and_a_reason(
    channel: Seq<char>,
    gap: Seq<char>,
    reason: Seq<char>,
)
    requires
        solid(channel),
        blank(gap),
        trimmed(reason),
        reason.len() > 0 ==> gap.len() > 0,
        one_line(channel + gap + reason),
        one_line(reason),
    ensures
        ({
            let given = if reason.len() > 0 {
                Some(reason)
            } else {
                None
            };
            let arguments = channel + gap + reason;
            &&& crate::model::channel_name(channel) ==> asked("part"@, arguments) == Ok::<
                _,
                CommandError,
            >(CommandActionView::Part { channel: Some(channel), reason: given })
            &&& channel.len() > 0 && (channel[0] == '#' || channel[0] == '&')
                && !crate::model::channel_name(channel) ==> asked("part"@, arguments) == Err::<
                CommandActionView,
                _,
            >(CommandError::InvalidArguments)
            &&& reason.len() == 0 || (reason[0] != '#' && reason[0] != '&') ==> asked(
                "part"@,
                reason,
            ) == Ok::<_, CommandError>(CommandActionView::Part { channel: None, reason: given })
        }),
{
    lemma_names();
    let arguments = channel + gap + reason;
    lemma_one_line(arguments);
    lemma_one_line(reason);
    let rest = gap + reason;
    assert(arguments =~= channel + rest);
    if rest.len() > 0 {
        assert(rest[0] == gap[0]);
    }
    text::law_the_first_word_ends_at_whitespace(channel, rest);
    text::law_trimming_keeps_the_text(gap, reason, Seq::empty());
    let first = text::first_word(reason);
    text::lemma_first_word(reason);
    if first.len() > 0 {
        assert(first[0] == reason[0]);
    }
}

/// Arguments that would break a line are refused whatever the command is, and a
/// word that is none of the commands is unsupported.
pub proof fn law_other_commands_are_refused(name: Seq<char>, arguments: Seq<char>)
    ensures
        !one_line(arguments) ==> asked(name, arguments) == Err::<CommandActionView, _>(
            CommandError::InvalidArguments,
        ),
        one_line(arguments) && name != "join"@ && name != "part"@ && name != "query"@ && name
            != "close"@ && name != "nick"@ && name != "away"@ && name != "back"@ && name
            != "connect"@ && name != "reconnect"@ && name != "disconnect"@ && name != "quit"@
            ==> asked(name, arguments) == Err::<CommandActionView, _>(CommandError::Unsupported),
{
    lemma_one_line(arguments);
}

} // verus!
