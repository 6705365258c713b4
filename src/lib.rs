//! Network mediation and control plane of a five-node replicated cluster playground:
//! port topology, partition engine, frame router, client API envelopes, cluster view
//! aggregation, proposal streaming, scenarios and operator command parsing.
pub mod cli;
pub mod cluster;
pub mod messages;
pub mod partition;
pub mod router;
pub mod streamer;
pub mod text;
pub mod topology;
pub mod wire;
