# knot_nm_dns_update

Copies the name servers that NetworkManager found into Knot Resolver's forwarding rules, and, on
request, its search domains into `/etc/resolv.conf`. The rules, parsers and decisions are a library
that is verified with [Verus](https://github.com/verus-lang/verus); `app/` does the input and output
that the library asks for.

| Module | What it holds |
| --- | --- |
| `text`, `order` | white space, lines, ASCII case; the order and equality of texts |
| `addr` | IP addresses |
| `domain` | the normal form of domain names, and the list of domains forwarded without validation |
| `json` | JSON documents, read and written with `serde_json` |
| `forward` | Knot Resolver's forwarding rules: the wanted ones, and those a document states |
| `api` | what is sent to Knot Resolver's configuration interface, and what replies mean |
| `resolv` | what a `resolv.conf` says, and how long a usable one is waited for |
| `search`, `search_laws` | putting search domains into a `resolv.conf`, and what holds of that |
| `known` | records of what was already applied |
| `path` | the parts of paths |
| `atomic`, `atomic_laws` | replacing files, and what that does to their contents |
| `session`, `session_laws` | a run, as a machine that asks for outside work, and what holds of every run |
| `config` | paths |
