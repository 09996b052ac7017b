[package]
name = "anarchy2090"
version = "0.1.0"
edition = "2021"
publish = false

[dependencies]
bevy = { version = "=0.17.3", default-features = false, features = ["std", "async_executor", "multi_threaded", "bevy_asset", "bevy_color", "bevy_core_pipeline", "bevy_render", "bevy_sprite", "bevy_sprite_render", "bevy_text", "bevy_ui", "bevy_ui_render", "bevy_window", "bevy_log", "default_font"] }
bevy_ecs_tilemap = "=0.17.0"
pathfinding = "=4.16.0"
rand = "=0.9.5"
