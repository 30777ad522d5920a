# slate

Server-side rendering inside a Rust server: SvelteKit, Vue or React pages are
rendered by an embedded JavaScript engine, in the server's own process.

```
Browser → web server → static file? → served from embedded assets
                     → page request? → cache, or __render(request) → HTML
                                          └─ fetch('/api/...') → the server's own router
```

## Layout

- `src/` is the library. It holds every decision, with contracts that Verus proves:
  - `cache`: the bounded cache of rendered pages, and which pages go into it
  - `handler_common`: the way of a request from the cache through the engine to an answer
  - `worker`, `engine`: the life of a worker, what a page is asked, and what it may fetch
  - `dispatch`, `fetcher`, `fetch_result`: fetches by the router and over the network,
    and the targets that a page may not reach
  - `header_map`: header fields, in and out of the `http` crate's map
  - `axum_integration`, `salvo_integration`, `actix_integration`: what is particular to
    these frameworks
  - `static_files`: files from the embedded assets
  - `polyfills`: `URL`, `URLSearchParams`, `Headers`, `TextEncoder`, `TextDecoder`,
    `btoa`, `atob`, `crypto` and `console`
  - `text`, `json`, `pairs`, `hex`, `url_parts`: what these share
- `app/` binds the library to QuickJS, to the network, and to Axum, Salvo, Actix Web
  and Warp.
- `tests/` runs the library.

Calls into other crates that only compute (parsing a URL, a target, a header
name or a method, hashing, guessing a MIME type) stay in the library, each behind one small
function whose contract is trusted. Its doc comment says what is claimed. A public
proof function whose name starts with `law_` states what holds of several
functions together.

## The embedded assets

The assets hold `entry.js`, a script that defines
`globalThis.__render(request) → { status, headers, body }`, and the files of the
client under `client/`. A file `x` that also exists as `x.br` is served
compressed to clients that take Brotli. Files under a directory `immutable/` are
served with a cache lifetime of a year. A file `polyfills.js`, where there is one,
is evaluated before `entry.js`.
