# http-proxy-lb

An HTTP relay proxy that balances requests over a pool of upstream proxies, with
health checking and hot reload. The decisions it makes are a library that is
verified with [Verus](https://github.com/verus-lang/verus); the sockets, files
and signals around them are an ordinary program.

## Layout

* `src/` — the verified library
  * `config` — configuration, defaults, upstream URLs and credentials
  * `upstream` — the pool: state and statistics of each upstream, and selection
    (round-robin, best, priority)
  * `http`, `rewrite`, `stream` — message heads, what is written in their place,
    and how bodies are framed
  * `session` — a request on its way through the upstreams, with failover
  * `domain`, `direct` — which requests bypass the upstreams, and their way
  * `health`, `reload`, `limits` — probes, hot reload and resource limits
  * `admin` — metrics and the documents of the admin server
  * `text`, `json` — characters, decimal numbers and lines; JSON documents
  * `boundary` — the calls into other crates, with the contracts they are
    believed to have
  * `balance_laws`, `rewrite_laws`, `session_laws` — what holds across functions;
    the laws of the other modules stand at their ends
* `app/` — the program
* `tests/` — the library at work on concrete values

## How the pieces meet

A session is told what happened (a connection is up, an upstream failed, a reply
came) and says what to do next. The program does it and reports back. All
sessions share one pool; a session refers to an upstream by an id that no other
entry has. A reload hands the id of an upstream on to the first one that is listed
under the same URL, so what happens to a request after a reload still counts for
the upstream that serves it. Any other upstream of the new list has a new id: what
happens to requests that were under way does not reach it.

## Running

```
http-proxy-lb --config config.yaml
http-proxy-lb --config config.yaml --check
```
