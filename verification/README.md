# ESP32 hardware monitor — verified core

The Windows agent samples CPU, GPU and memory load and the CPU/GPU
temperatures and sends one line a second to an ESP32-C3 display:

```text
CPU=35;GPU=42;RAM=68;CPU_TEMP=56;GPU_TEMP=61
```

`src/` is the library, checked by Verus:

- `agent` — the serial line, and the proof that the temperatures a reader
  takes back from it are the ones sent (limited to 199).
- `temperature` — the `KEY=value` report parser, the elevated helper's report
  and its freshness rule, and the probe's sampling schedule.
- `fields`, `text` — `split(';')`, `trim`, integer parsing and decimal text,
  specified as the standard library behaves.
- `metrics` — CPU load from two snapshots of the system times, memory load.
- `serial_link` — scoring and ranking of serial ports.
- `install`, `paths`, `config`, `win_util` — names, command lines, access
  rules and messages of the installer; UTF-16 text for the Windows API.

`app/` is the Windows program around it: the agent loop, the Windows API
calls, the serial port and the helper processes.
