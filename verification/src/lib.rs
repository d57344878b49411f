//! Verified building blocks of a collection of small network programs:
//! Internet checksums, a stop-and-wait reliable transport, ICMP probes and
//! traceroute output, distance-vector and RIP routing tables and their
//! printed forms, SMTP and FTP reply handling, the FTP client's window
//! logic, an HTTP caching proxy's decisions and several bookkeeping tables.
pub mod checksum;
pub mod bytes;
pub mod packet;
pub mod text;
pub mod rdt;
pub mod traceroute;
pub mod assoc;
pub mod dvrp;
pub mod strmap;
pub mod rip;
pub mod blacklist;
pub mod proxy;
pub mod paths;
pub mod smtp;
pub mod email;
pub mod ftp;
pub mod remote_exec;
pub mod http_file;
pub mod conn_limit;
pub mod icons;
pub mod products;
pub mod heartbeat;
pub mod ping;
pub mod transfer;
pub mod peers;
pub mod lexorder;
pub mod listing;
pub mod ftp_gui;
pub mod echo;
