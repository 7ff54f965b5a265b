# pot

The rules of an event-and-betting-pot program for Solana, verified with Verus.

- `src/keys.rs`: account addresses, and lookups and de-duplication over them.
- `src/accounts.rs`: the account data (profiles, stakes, events, event lists),
  the instruction arguments, and the errors.
- `src/system.rs`: the system program's transfer instruction.
- `src/model.rs`: each instruction's outcome, stated over the accounts' views.
- `src/program.rs`: the instructions, each proved to match `model.rs`, and the
  checks that their arithmetic stays in range.
- `src/sizes.rs`: the room each account needs.
- `src/laws.rs`: what holds across instructions (a guest bets once, an
  attendee votes and is paid once, shares stay within the pot, ...).
- `app/lib.rs`: the Anchor program that validates the accounts, reads the
  clock, calls the library and makes the transfers.
