# mailc

A keyboard-driven terminal mail client (IMAP/SMTP, several accounts, a
local SQLite cache, recipient autocomplete, spellcheck through Hunspell,
attachments with a directory browser), whose logic is a library verified
with Verus.

## Layout

- `src/` — the verified library. Every decision the client makes lives
  here with a contract: text editing widgets (`editable`), key handling as
  a function from state and key to new state and requested work (`keys`),
  what finished background work does to the interface (`updates`), sync
  planning (`sync`), the address book (`store`), fuzzy recipient matching
  (`fuzzy`), the Hunspell pipe protocol and dictionary discovery
  (`spellcheck`), message parsing and building around `mail_parser` and
  `lettre` (`imap`, `mailparse`, `mime`, `smtp`), attachments and the file browser (`attach`,
  `filebrowser`), screen geometry (`layout`), the account prompts'
  answers (`setup`) and the keyring items holding account secrets
  (`keychain`). `laws` states and proves properties that span
  several operations.
- `app/` — the program around it: terminal, network, disk, keyring,
  clock and drawing. It performs the work the library asks for and hands
  the results back.
- `tests/` — tests of the library on concrete values.

Run `mailc --add-account`, `--set-password`, `--remove-account` or
`--set-default-account` to manage accounts; plain `mailc` starts the
interface (and walks through adding a first account when there is none).
