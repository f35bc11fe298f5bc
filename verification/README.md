# redir-rust

A port redirector for TCP and UDP with plugins for Minecraft servers: while no
target of a redirect can be reached, clients get a proper message instead of a
timeout.

- `src/` is the library, verified with Verus: target selection, the UDP relay,
  the offline answers for Java and Bedrock Edition, traffic shaping, the
  settings and the command line. Each function states what it returns, and the
  `*_laws` modules state what holds of several functions together.
- `app/` is the program around it: sockets, processes, files and the command
  line's definition.
- `tests/` exercises the library on concrete values.

A redirect listens on one address and forwards to the first of its targets that
can be reached:

```toml
[[redirect]]
name = "minecraft"
listen = "0.0.0.0:25565"
targets = ["127.0.0.1:25566", "127.0.0.1:25567"]

[redirect.minecraft.plugins]
enabled = true
```
