# chatwork-cli

A command-line client for the Chatwork chat service: it sends template or ad-hoc
messages, shows the account, contacts, rooms, messages and files, and downloads and
uploads files.

The decisions of the client live in a library verified with Verus (`src/`):

- `cli_args`: normalizing the command line (unique subcommand prefixes, the `dl` alias,
  routing a chat URL after `get`, the implied `file` subcommand) and choosing the usage
  text of a failed parse; `normalize_laws` proves that normalizing twice changes nothing;
- `chat_url`: reading room and message ids from chat URLs, and the arguments of
  `get room` / `get message`;
- `download`: download tags in message bodies, the selection menu and its answers, and
  where downloaded files go;
- `template`: the configuration, `--var` items, `{{name}}` placeholders and `send`;
- `api`: endpoint URLs, contact filters and the checks around uploads, downloads and
  sent messages;
- `output`: the plain-text form of the records;
- `i18n`, `message`, `usage`: gettext-style catalogs, messages and usage texts;
- `paths`, `strmap`, `text`, `shell_completion`: supporting pieces.

`app/` is the program around it: argument parsing with `clap`, the environment and
dotenv files, TOML and JSON with `serde`, HTTP with `reqwest`, the line editor, and
printing. `tests/` holds the tests of the library.
