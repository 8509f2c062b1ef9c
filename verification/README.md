# terraform_forge_cli

The verified core of `terraform-forge`, a command line tool that turns an
OpenAPI spec into a Terraform provider: it drafts resource specs (`scaffold`),
checks them against the API (`validate`, `drift`), compares API versions
(`diff`) and generates the Go code (`generate`).

- `src/` is the library, verified with Verus. Each command's reports and
  decisions are functions with contracts over sets and sequences of
  characters: sorted, duplicate-free listings and the set differences they
  report, the text of a drafted resource spec, the order in which resource
  files are taken, and the state of a generation run.
  `src/openapi.rs` and `src/terraform.rs` hold what is trusted about the
  `openapi_forge` and `terraform_forge` crates that parse specs and generate code.
- `app/` is the executable: argument parsing, reading and writing files,
  and printing.
- `tests/` runs the library on concrete values.
