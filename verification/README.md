# nono_proxy

Interactive network policy for a sandbox proxy, verified with Verus.

Unknown hosts lead to a native dialog that asks whether to allow or deny access,
once or permanently. Permanent decisions are kept in a learned-policy file and
decide about later requests. Cloud metadata hosts and link-local addresses are
denied whatever anybody decides, and a dialog that is not answered in time
denies.

## Layout

- `src/`: the library. Verus proves the contract of every function but for a few
  trusted ones, which call the standard library or `nono::HostFilter`: six marked
  `external_body` and five `assume_specification` items. Two outside types are
  declared, and three names are left uninterpreted. Each says in its doc comment
  what is taken for granted.
  - `policy`, `learned`, `table`: stored decisions, prompts under way, and the
    learned-policy file. `policy_laws` holds what follows across calls.
  - `filter`: the host filter and when it consults the policy; `filter_laws`.
  - `decision`: what a prompt can decide.
  - `host`, `ip_literal`, `text`: host names and suffixes; `host_laws`,
    `text_laws`.
  - `dialog`, `notify`, `platform`, `command`, `script`, `escape`: what dialogs
    and notifications show, which programs show them, and how replies read.
  - `process`: when to end a subprocess.
  - `launch`, `runtime`, `version`: from arguments and profile to the
    configuration of the proxy; `launch_laws`.
- `app/`: files, subprocesses, DNS, threads and the proxy runtime around it.
- `tests/`: tests of the library.

The library holds no lock and does no I/O. A caller asks it what to do, does it,
and hands the outcome back.
