[package]
name = "river_power"
version = "0.1.0"
edition = "2021"
publish = false

[dependencies]
bevy = { version = "=0.15.3", default-features = false, features = ["bevy_asset", "bevy_scene", "bevy_pbr", "bevy_gltf", "bevy_render", "bevy_core_pipeline", "bevy_state", "bevy_gizmos", "bevy_window", "ktx2", "zstd", "tonemapping_luts"] }
avian3d = "=0.2.1"
fastrand = "=2.5.0"
