# lockstep

A simulation server that moves in lockstep with its clients: the simulation takes one step each
time every participating client has reported that it is ready, and every client is told the new
tick. Clients live in the process of the server or behind gRPC.

The library under `src/` is verified with Verus.

- `interface`: the messages, and the trait that a simulation implements
- `simulator`: a stateless simulation
- `channel`, `registry`: channels of `crossbeam_channel` and the client map of `dashmap`, with the
  contracts that the rest is proved from
- `barrier`: what the simulation loop does to its world, and the laws of the step barrier
- `server`: the server and the turns of its simulation loop
- `shutdown`: what a shutdown means for the clients
- `service`: the gRPC service of the server, as decisions on plain values
- `link`, `client`: waiting, draining and forwarding; clients of the server
- `coordinator`, `sync_client`: a server that counts ticks itself, and its blocking clients
- `controller`, `visualizer`: a client that works between steps, and a viewer
- `text`: decimal numbers, endpoints and metadata text

`app/` runs the library: threads, gRPC with `tonic`, the command line, and the viewer with Bevy.
To open a window, add a windowing backend to the features of `bevy` (`bevy_winit` with `x11` or
`wayland`).

A server and its loop are plain state. The host shares the server behind a lock and drives the
loop: `refresh` with the lock, `wait` without it, `handle` with it, and `finish` at the end.
