# gillnet

The decisions of an HTTP gateway, verified with Verus: which route a path takes and
which instance serves it, whether a caller may pass, what WebAssembly filters make of a
request, and which headers go upstream and come back.

- `src/` is the library. Its functions state what they return or change, and Verus
  proves it; what comes from a clock, an engine or a signature is stated as far as
  anything holds of it. Names that start with `law_` are proofs about several functions
  at once: that every guard of a route must pass, that a session never outlives the
  credential it is made from, that a filter which could not run refuses the request,
  that instances take turns, that what operators are shown says nothing of credentials.
- `app/` is the gateway process: listeners, upstream connections, the config file, the
  clock ticks and the reading of module files. It hands the library plain values and
  does what the library decides.
- `tests/` runs the library, with a WebAssembly engine, signed tokens and YAML settings.

## Sessions

An `oauth2-plugin` with a `session-cookie:` block hands a caller it lets pass a
`Set-Cookie` with the response, unless the request carries a session that still
verifies. A `jwt-plugin` on another route takes that cookie for a token where its
`cookie-keys:` name it, after every header. The cookies that the guards of a route read
or mint are taken out of what goes upstream unless the route has `forward-token`; the
other cookies stay. A `testing-plugin` with a `session-cookie:` block lays the claims
that are registered for a token over those of the session that the caller carries. A
`Cookie` header is read where it is visible ASCII, and changed where it is valid UTF-8.

## Modules

| Module | What it decides |
|---|---|
| `registry` | routes, registrations, instances, and what operators are shown |
| `auth`, `cookies`, `provider`, `signed`, `digest` | guards, token introspection, signed tokens |
| `plugins` | the plugin types, session cookies, WebAssembly filters and their guests |
| `proxy`, `filters`, `websocket`, `headers` | what is sent on, relayed or answered |
| `api`, `testing` | the registration and claim-override endpoints |
| `header_policy` | a small filter, from the guest's side |
| `json`, `tree`, `yaml`, `decimal`, `strmap`, `text`, `sorting`, `clock` | what all of them stand on |

What the library believes of other crates stands in the doc comment of the function that
calls them.
