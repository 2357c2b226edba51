# pipes-rs

Sensor processing and fusion in front of ROS 2, in Rust, with its logic verified by
Verus.

- `src/` is the library, verified but for the functions that call another crate:
  bounded queues and what they drop, the metrics of a run, the replay clock, reading the tables of the Waymo Open
  Dataset, point clouds from range images, depths for camera boxes, reading the
  output of a YOLOX detector, and the messages between the nodes of a dataflow.
- `app/` is the program around it: arguments, files, threads, ONNX Runtime, and
  arithmetic on floats. `app/dora_node.rs` is the root of a second program, a node
  of a dora dataflow.
- `tests/` runs the library with Arrow, `image`, `base64` and `crc32fast` linked.

## How the library is laid out

| Modules | What they hold |
| --- | --- |
| `table`, `columns` | Arrow arrays and tables, and their columns by name and type |
| `ieee`, `order`, `text`, `nanos`, `checksum` | floats as bit patterns, a stable sort, text, time, CRC-32 |
| `queue`, `producer`, `metrics`, `measurement`, `replay`, `waymo` | the replay of a segment through bounded queues |
| `frames`, `index`, `pointcloud`, `fusion`, `stages`, `pipeline`, `demo` | camera and LiDAR frames, point clouds, pairing, depths, reports |
| `jpeg`, `picture`, `detector` | which files can be decoded, decoding them, and reading what the detector puts out |
| `wire`, `join`, `sink`, `transport` | messages between nodes, joining them by time, numbering them, and the transport benchmark |

Public proof functions named `law_..` state what holds of the library as a whole:
that a queue hands out what it took in, in order; that every accepted measurement is
delivered, dropped or still queued; that messages arrive as they were sent.

The functions marked as external call Arrow, `image`, `base64` and `crc32fast`. Each
says what it takes for granted of the function it calls. Paths are written with `/`.

## Running it

```bash
cargo run --release -- \
  --segment 10023947602400723454_1120_000_1140_000 \
  --queue-size 8 --queue-policy drop-oldest --speed 1.0 --csv pipeline-metrics.csv
```

`--speed 0` replays without pacing. `--demo-output frame.html --frame-index 0` builds
an inspection page for one frame, from the template `assets/fusion-demo.html`.
