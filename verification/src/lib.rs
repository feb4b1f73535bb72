//! Codec for save files: the container framing, the payload cipher, the
//! character record, the bit-packed item serials and the part tables that
//! annotate them.

pub mod bits;
pub mod bl3_save;
pub mod bl3_ui;
pub mod character_data;
pub mod checksum;
pub mod crypto;
pub mod current_parts;
pub mod error;
pub mod inventory_serial_db;
pub mod item_serial;
pub mod parser;
pub mod part_order;
pub mod resources;
pub mod text;
pub mod wire;
