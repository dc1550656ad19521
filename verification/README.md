# myvpn

The core of MyVPN, a serverless peer-to-peer VPN for Windows with a separate
public-server mode, written in Verus: the application's logic (status transitions, parsing,
validation, authentication, command plans, the server catalog and the
connection state machines) consists of executable functions with contracts
proved by Verus, and the properties the application relies on are stated and
proved as lemmas. The Tauri application in `app/` performs the I/O around it
(sockets, processes, files, the tunnel adapter, Windows APIs) and sequences
those calls.

## Layout

| path | contents |
|------|----------|
| `src/text.rs` | text model and routines: trimming, splitting, joining, decimal parsing and rendering |
| `src/iplit.rs` | the grammar of IPv4/IPv6 literals and verified recognisers for it |
| `src/net.rs` | Windows network configuration plans (routes, NAT, DNS, forwarding, DNS leak hardening), with IP validation of every interpolated address |
| `src/transport.rs` | passphrase proofs, network identities, peer authentication, the handshake outcome, framing, relay selection, the identity format at rest |
| `src/discovery.rs` | the table of hosts heard on the LAN |
| `src/engine.rs` | the private VPN's state machine, dial targets, statistics, reconnect backoff, tunnel set-up decisions, teardown, the single client slot |
| `src/commands.rs` | trusted devices, mutual exclusion of the two modes, persisted settings, the release check, start on boot, window and tray |
| `src/sources.rs` | parsing of the VPN Gate server list |
| `src/public.rs` | the public server catalog and the OpenVPN session state machine |
| `src/openvpn.rs` | OpenVPN launch arguments, command-line quoting, wide strings, log interpretation |
| `src/state.rs`, `src/error.rs` | the shared state types with their models, and the error type |
| `tests/` | tests of the library on concrete values |
| `app/` | the Tauri application around the library: commands, sockets, processes, the tunnel adapter, the settings store |

Run `verus` on `src/lib.rs` to check the proofs.
