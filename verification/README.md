# reposeal

A supply-chain firewall for AI coding agents: it resolves the repository,
package, skill, MCP server, plugin or download an agent is about to acquire,
weighs the evidence under a strict policy, and answers `verified`, `review`
or `blocked`.

The library in `src/` is written in Verus. Its functions carry contracts
that Verus proves, except the small wrappers around outside crates (SHA-256,
hex, URL parsing and form encoding, edit distance, RFC 3339 time text,
regular expressions, shell-word splitting, UTF-8 decoding), whose contracts
are trusted: each says in its doc comment what it claims of the outside
function.

- `identity` — typed component references: parsing, normalization and
  canonical IDs (with the laws that an ID parses back to its component).
- `digest` — domain-separated SHA-256 digests and their text form.
- `report` — signals, evidence and verification reports.
- `policy` — strict policy documents and the decision procedure, with the
  laws that critical signals, identity conflicts and denied components
  block.
- `resolver` — provider facts turned into resolutions, HalluSquat candidate
  generation and identity comparison.
- `lockfile` — the `agent.lock` model: ordered, sealed entries and upserts.
- `provenance` — capability manifests, attestation binding and instruction
  hashing.
- `sandbox` — static scan rules and reports, ignore lists, trace reports and
  OS sandbox plans.
- `command` — recognition of acquisition commands (`git clone`, `npm install`,
  `uv add`, `curl https://…`, …).
- `workflow` — hook command planning, lock entries, the audit hash chain,
  the hermetic benchmark and the assessment of one request.
- `text`, `sort` — character-sequence utilities and a stable sort.

`app/` is the command-line program around the library: argument parsing,
files, network providers, the MCP server and process execution. `tests/`
exercises the library from outside.
