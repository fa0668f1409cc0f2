# portmaster_kext

The core of the Portmaster Windows kernel extension: what the driver remembers of the
connections of a machine, how it decides about packets, and how it talks to the Portmaster
service in user space. Everything under `src/` is verified with Verus.

## What it does

The Windows Filtering Platform shows the driver every packet and every connection attempt.
The driver asks user space about those that no verdict covers yet, keeps the packets until the
answer arrives, and then permits, blocks, drops or redirects them. User space writes verdicts
and other commands to the device and reads requests, connection events, bandwidth statistics
and log lines from it.

The library holds the state and every decision. It performs no input or output: facts of the
kernel (the time, a process, the bytes of a packet, the outcome of an operation) are arguments,
and what has to happen outside is returned as an `Action` or as the next step of a callout.

## Layout

- `device`, `device_state`: the state of a device and its model. The other `device_*` modules
  hold its operations: requests, verdicts, the command and event streams, reports,
  maintenance, flow contexts and shutdown. `device_laws` states what holds across them.
- `connection`, `connection_map`, `connection_cache`, `connection_laws`: connections by tuple
  and generation.
- `id_cache`, `tcp_closure_cache`, `tcp_endpoint_cache`, `udp_endpoint_cache`,
  `udp_flow_cache`, `icmp_echo_cache`: what is remembered besides.
- `packet_callouts`, `packet_layer`: decisions at the IP packet layers, and one indication
  there step by step. `ale_policy`, `ale_callouts`, `ale_layer`: the same for the
  authorization layers. `stream_callouts`: byte counting.
- `packet_metadata`, `packet_util`, `ipv6_packet`, `icmp_packet`, `transport`, `checksum`:
  reading and rewriting packets. `wire` calls smoltcp for what concerns single headers.
- `command`, `info`, `bandwidth`, `logger`, `text`, `bytes`: the records that are exchanged
  with user space.
- `entry`, `common`, `startup`: requests to the device, and the order of start and unload.
- `ordered`, `lists`, `array_holder`, `key`, `key_index`, `ip`: building blocks.

`app/` is the driver around the library. It is generic over the kernel services that it needs
(`app/kernel.rs`).

Functions marked `external_body` make one call into smoltcp or the standard library each. Their
contracts are trusted; everything else is proved.
