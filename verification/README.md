# extension_listing

What the `extension` command of a PHP toolchain answers about the external
extension hosts that a workspace configures.

- `src/` is the verified library (Verus): the registrations of each extension
  (`registration`), their join by identifier into an ordered listing
  (`listing`), the text listing (`render`), the report printed as JSON
  (`report`), the per-host decision when starting worker pools (`hosts`), the
  command's answer (`command`), and properties of the whole (`laws`).
- `app/` starts the hosts through the toolchain's crates, converts their
  registrations to the library's values, and prints.
- `tests/` runs the library on concrete registrations.
