# ktail

Tails the logs of Kubernetes containers as pods come and go, with colored
output, JSON highlighting and templates.

- `src/` is the verified library (Verus): the matching of pods and containers,
  the command line's choices (selectors, namespaces, where reading starts),
  the per-container tailing state machine (timestamps, de-duplication,
  back-off), the controller's registry of running tailers, the watch restart
  policy, and the formatting of lines and notices.
- `app/` is the program around it: argument parsing, the configuration file,
  the Kubernetes client, the asynchronous watch and poll loops, and printing.
- `tests/` exercises the library on concrete values.

The configuration file is `$HOME/.config/ktail/config.yml`; its keys are
`quiet`, `noColor`, `raw`, `timestamps`, `colorMode`, `colorScheme`,
`templateString` and `kubeConfigPath`. Flags given on the command line take
precedence.
