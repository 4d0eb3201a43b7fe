pub mod nds;
