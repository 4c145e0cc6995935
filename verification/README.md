# camera_stream

A Wi-Fi JPEG camera built on an ESP32-S3: the firmware reads JPEG frames
from the camera over DMA and either sends them to a relay as UDP datagrams
or serves them to a browser as an MJPEG stream over TCP; the relay serves
images to browsers as MJPEG.

`src/` is the verified library (Verus):

- `chunk` – the datagram wire format (`JpegFrameChunk`), its encoder and
  decoder, and the round-trip laws.
- `frame` – cutting a frame into datagrams, and the law that the chunks
  put back together give the frame.
- `camera` – the camera task's decision after each look at the DMA stream,
  and how its bytes are cut into video chunks.
- `udp_stream` – the UDP firmware's camera messages and frame sender, and
  the law that frame ids count the frames sent.
- `reassembly` – the relay's receiver: frames put back together from
  datagrams arriving in any order.
- `tcp_stream` – the TCP firmware's camera messages and stream writer.
- `http` – request reading and routing of the TCP firmware.
- `mjpeg`, `decimal` – the relay's MJPEG part headers.
- `ipv4` – reading dotted IPv4 addresses.
- `link` – DHCP and access point decisions.
- `sccb` – the sensor's register writes.
- `text` – ASCII byte strings and substring search.

`app/` holds the programs around it: the relay (`main.rs`, `face.rs`), and
the firmware tasks (`firmware/`), which build only for the board.
