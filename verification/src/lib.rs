//! Verified core of a Wi-Fi JPEG camera: the UDP chunk wire format, the
//! frame sender and camera pump decisions of the firmware, the HTTP routing
//! of the TCP streaming firmware and the MJPEG framing of the relay.
pub mod chunk;
pub mod frame;
pub mod camera;
pub mod udp_stream;
pub mod text;
pub mod http;
pub mod tcp_stream;
pub mod decimal;
pub mod mjpeg;
pub mod ipv4;
pub mod link;
pub mod sccb;
pub mod reassembly;
