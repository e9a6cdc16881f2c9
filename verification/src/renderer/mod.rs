pub mod worldRenderer;
