pub mod liquidity_consumer;
pub mod liquidity_provider;
pub mod liquidity_remover;
