[package]
name = "hydraulic"
version = "0.1.0"
edition = "2021"
publish = false

[dependencies]
rand = "=0.9.5"
noise = "=0.9.0"
bytemuck = { version = "=1.25.2", features = ["derive"] }
pollster = "=0.4.0"
wgpu = { version = "=27.0.1", default-features = false, features = ["std", "vulkan", "wgsl"] }
bevy = { version = "=0.18.1", default-features = false, features = ["std", "bevy_asset", "bevy_color", "bevy_core_pipeline", "bevy_gizmos", "bevy_gizmos_render", "bevy_light", "bevy_log", "bevy_pbr", "bevy_render", "bevy_text", "bevy_ui", "bevy_ui_render", "bevy_window", "default_font"] }
