# drosophila

A desktop controller for a Yggdrasil-ng overlay node: it starts and stops the
node, shows its address and the state of its peers, manages the configured
peers (with discovery from the public peer lists), and exposes the overlay
network through a local HTTP/SOCKS5 proxy, optionally set as the desktop's
system proxy.

## Layout

- `src/` is the verified library. Every function carries a contract that
  Verus proves, except the trusted wrappers listed below:
  - `config`: the front end's settings, their defaults and the migration of
    older settings files;
  - `backend`: which transport a start uses, the proxy's settings, peer
    state reports, and the backend's state across starts, stops and events
    of the privileged worker;
  - `privileged`: the worker's arguments and token, the `pkexec` and
    Flatpak launch command lines, the handshake and how a worker connection
    ends;
  - `proxy` and `dns`: HTTP proxy requests, the SOCKS5 handshake, overlay
    routing and the AAAA queries sent to an overlay DNS server;
  - `discovery` and `peers`: candidates from the public peer lists, their
    order, peer URIs and the discovery cache;
  - `system_proxy`: the desktop proxy settings that are applied and when
    they are restored;
  - `ui`: what the window shows and what a user's action does;
  - `text`, `net`, `urls`: shared helpers for characters, addresses and
    URLs.
- `tests/` runs the library on concrete values.

## Trusted wrappers

Each of these makes one call into the standard library or an outside crate;
its contract is believed, not proved, and its doc comment says what it claims:

- `text`: `string_from_chars`, `utf8_chars`, `to_lowercase`, `to_uppercase`
  (standard library);
- `net`: `parse_ip_address`, `parse_ipv6_address`, `parse_socket_address`
  (the standard library's address parsers);
- `urls`: `parse_url`, `serialize_url_with_pairs` (the `url` crate);
- `peers`: `regex_is_match` (the `regex` crate);
- `privileged`: `fill_random` (the operating system's random source through
  `rand`);
- `system_proxy`: `ip_to_string` (standard library), `proxy_type_direct`,
  `proxy_type_proxy` (the `windows-sys` constants);
- `config`: `is_flatpak` (whether `/.flatpak-info` exists).

## TUN

The library is built with the TUN transport (`config::TUN_SUPPORTED` is
`true`), as the program's default build is. The decisions that depend on it
(`GuiConfig::effective_mode_for`, `default_mode_for`, `start_mode`,
`BackendState::begin_start` and `on_command`, the mode selector and the
proxy card in `ui`) take TUN availability as an argument, and their
contracts cover builds with and without it. Inside Flatpak, fresh settings
select the system proxy and a TUN start is refused.
