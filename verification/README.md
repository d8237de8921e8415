# alt

An event aggregator for ktrl. Focus changes (from i3) and external events
(`<name>:<on/off>` over TCP on 127.0.0.1:7332) are fed to aggregators read
from `~/.alt.ron`; when all requirements of an aggregator become met, or one
stops being met, its `on_ipc` / `off_ipc` request is sent to ktrl.

- `src/` is the verified library: the message format (`message`, `gateway`,
  `server`), the connection decisions (`conn`), the aggregators and their laws
  (`aggregator`), the configuration types (`config`) and text helpers (`text`).
- `app/` is the program: command line, configuration file, sockets, i3, the
  ktrl client and the tokio plumbing around the library.
