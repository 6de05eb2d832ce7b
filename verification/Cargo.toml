[package]
name = "tower_defense"
version = "0.1.0"
edition = "2021"
publish = false

[dependencies]
avian2d = { version = "=0.4.1", default-features = false, features = ["2d", "f32", "parry-f32", "default-collider", "bevy_picking"] }
bevy = { version = "=0.17.3", default-features = false, features = ["std", "bevy_ui", "bevy_ui_render", "bevy_sprite", "bevy_sprite_render", "bevy_render", "bevy_core_pipeline", "bevy_state", "bevy_log", "bevy_picking", "bevy_text", "bevy_color", "bevy_asset", "bevy_window", "default_font", "bevy_ui_picking_backend", "experimental_bevy_ui_widgets"] }
rand = "=0.9.5"
