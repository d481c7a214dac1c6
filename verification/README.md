# ai_bridge

A verified core for an AI gateway in front of legacy business systems.

`src/` is the library, checked by Verus: tool registry and inventory,
policy engine (role permissions, principal scope, attribute rules, output
obligations), admission of a call step by step, approvals, audit hash chain
and retention, rate limits, cost ceilings, circuit breakers, PII masking,
prompt-injection signals, principal resolution, the MCP-facing payloads,
and the evaluation rubric and golden-set checks. Each public function states
its result in `ensures`; the `law_*` proof functions state properties that
span several calls.

Calls into outside crates (sha2, hex, rand, regex, jsonschema, ipnet,
chrono) go through small trusted wrappers whose contracts say what those
crates document.

`app/` holds what Verus does not see: YAML and JSON documents, files,
sockets, floating-point display, and the loops that drive the library's
state machines. `tests/` runs the library on concrete cases.
