# dream_domain

The domain of an enterprise deployment: project groups with their members, invites and departments,
and the platform around them with its settings, authorization, keys, messages and files.

The library in `src/` is written in Verus. It holds the tables as lists of rows and states of every
operation what it answers and what it does to the tables. The state of a service is seen through
its view: a structure of sequences of plain rows.

- `org`: groups, membership, invites, leaving, departments and the company directory, runtime
  nodes, connectors, mail, audit, backup.
- `platform`: settings and their probes, the address allowlist, grants, scenes, the security policy,
  API keys, messages, the file vault, object storage over S3 and WebDAV.
- `text`, `parse`, `table`, `ids`, `json`, `http`: what both are built from.

What holds of the library as a whole stands in `org::laws`, `org::join_laws`, `org::forest`,
`org::department_keys`, `org::directory_laws`, `org::directory_forest`, `org::directory_rerun`,
`platform::laws` and `platform::ip_laws`, and beside the functions that it is about.

Time, identifiers of the platform, encryption, password hashing, the network and the disk are
outside: the library takes their results as arguments, or says what to do next and takes the
outcome. Calls into `uuid`, `getrandom`, `serde_json`, `sha2`, `base64`, `quick-xml` and `lettre`
that only compute stand in the library, each in a small function whose contract says what is
believed of the call.

`app/` is the rest: routes, the database, requests over the network, files.
