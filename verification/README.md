# Sieve Tube

Sieve Tube is a self-hosted reverse tunnel. An **Edge** on a public server accepts
HTTP(S), TCP and UDP traffic; a **Connector** beside a private service keeps an
outbound QUIC connection to it and forwards what arrives to local targets.

The rules of both programs are a library that is verified with Verus. Each public
function states what it returns or changes, as far as neither the clock nor chance
decides it, and Verus proves it for every input that the function accepts. What a
library of another author computes is behind small functions whose contracts are
believed; their doc comments say what is believed.

## Layout

- `src/` is the verified library.
  - `text`, `positional`, `addr`, `hostname`, `text_map`, `text_set`, `order`, `time`,
    `json`, `digest`, `buffer`, `concurrent`, `pki`: texts, numbers, addresses,
    hostnames, collections, bytes, certificates and keys.
  - `auth`, `config`, `protocol`, `mesh_protocol`, `health`, `error`: what Edge and
    Connector share: tokens, messages, datagrams.
  - `connector/`: ingress rules, sessions with Edges, back-off, readiness.
  - `edge/`: configuration, the HTTP proxy, the registry of Connectors, certificates
    and ACME, policy plugins, start-up.
  - `edge/dns/`: managed DNS records: desired state, decisions, reconciliation, the
    providers, DNS-01 challenges.
  - `edge/mesh/`: forwarding between Edges.
- `tests/` runs the library on concrete values.
- `app/` is the program around the library: sockets, files, the QUIC and HTTP stacks,
  the control plane, the clients of providers and of the certificate authority. Work
  that alternates between the outside and decisions is driven by step functions of the
  library: the program does what a step asks for and hands back what came of it.

The functions named `law_...` in `src/` state what holds across several functions, such
as that what is encoded is decoded again, that a hostname has one tenant, or that a
change at a DNS provider is made only on what was seen before.
