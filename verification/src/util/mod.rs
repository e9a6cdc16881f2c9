pub mod greedyMeshHelper;
pub mod opaqueVector;
pub mod greedyTiling;
