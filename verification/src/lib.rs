//! Verified core of the Portmaster Windows kernel extension.

pub mod activity_laws;
pub mod ale_callouts;
pub mod ale_laws;
pub mod ale_layer;
pub mod ale_policy;
pub mod array_holder;
pub mod bandwidth;
pub mod bytes;
pub mod checksum;
pub mod command;
pub mod common;
pub mod connection;
pub mod connection_cache;
pub mod connection_laws;
pub mod connection_map;
pub mod counter_laws;
pub mod device;
pub mod device_flows;
pub mod device_laws;
pub mod device_lookup;
pub mod device_maintenance;
pub mod device_read;
pub mod device_report;
pub mod device_requests;
pub mod device_state;
pub mod device_stream;
pub mod device_verdict;
pub mod entry;
pub mod flow_laws;
pub mod icmp_echo_cache;
pub mod icmp_packet;
pub mod id_cache;
pub mod info;
pub mod inspection_laws;
pub mod ip;
pub mod ipv6_packet;
pub mod key;
pub mod key_index;
pub mod layer_laws;
pub mod lifecycle_laws;
pub mod lists;
pub mod logger;
pub mod maintenance_laws;
pub mod ordered;
pub mod packet;
pub mod packet_callouts;
pub mod packet_laws;
pub mod packet_layer;
pub mod packet_metadata;
pub mod packet_util;
pub mod record_laws;
pub mod rewrite_laws;
pub mod service_laws;
pub mod shutdown_laws;
pub mod startup;
pub mod state_laws;
pub mod stream_callouts;
pub mod sweep_laws;
pub mod tcp_closure_cache;
pub mod tcp_endpoint_cache;
pub mod text;
pub mod transport;
pub mod udp_endpoint_cache;
pub mod udp_flow_cache;
pub mod verdict_laws;
pub mod wire;
