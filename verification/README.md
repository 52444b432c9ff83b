# ssdd_on_top

A GraphQL gateway over REST APIs, with its logic verified by Verus.

A schema file describes types whose fields are resolved by `@http`
directives. The library reads such a schema into a configuration
(`from_doc`), compiles it into a blueprint of the fields reachable from the
query type (`blueprint`), finds the fields that a query selects (`jit`),
plans their evaluation (`resolve`) and shapes the response (`jit`,
`finalize`). It also holds the pieces of a posts-and-users gateway
(`loaders`) and of a check of one GraphQL server against another by
introspection (`query_info`, `type_info`, `introspection`).

- `src/` is the verified library; each public function states its result
  in its `ensures`, and the laws that relate functions are proof functions.
- `tests/` runs the library on concrete values.
- `app/` is the program around it: reading files, the HTTP servers, the
  upstream requests, and the serde forms of the library's types.
