pub mod network_history;
