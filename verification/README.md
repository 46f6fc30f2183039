# TermIRC

A terminal IRC client whose state, rules and layout are verified with Verus.

`src/` is the library. Every function states what it returns or changes, over
mathematical views of the types, and is proved against that.

| Module | What it holds |
| --- | --- |
| `text`, `sequence`, `columns` | Text, sequences and display widths. |
| `model` | Identities, conversations, messages, drafts, what is sent. |
| `history` | Bounded histories, one for each conversation. |
| `command` | Slash commands. |
| `protocol` | Decoding, encoding and the limits of IRC lines. |
| `config` | Configured servers and what makes them valid. |
| `connection` | One server's connection: attempts, retries, channels. |
| `application` | The session: registration, routing, submission. |
| `tui` | The view: layout, selection, focus, regions, keys and mouse. |
| `message`, `irc`, `layout`, `app`, `ui`, `mouse` | A view of channels alone, with a connection that is made once. |

What holds across several operations is stated in public proof functions whose
names begin with `law_`.

`app/` is the program: it reads the configuration file, runs the sockets and the
terminal, and draws. `tests/` exercises the library from outside.
