pub mod inference_market;
pub mod inference_mesh;
pub mod kit_agent;
pub mod intent_classifier;
pub mod routekit;
pub mod route_flow;
