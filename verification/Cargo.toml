[package]
name = "bevy_sprite_alt"
version = "0.1.0"
edition = "2021"
publish = false

[dependencies]
bevy_app = "0.8"
bevy_asset = "0.8"
bevy_ecs = "0.8"
bevy_log = "0.8"
bevy_math = "0.8"
bevy_reflect = "0.8"
bevy_render = "0.8"
bevy_utils = "0.8"
rectangle-pack = "0.4"
thiserror = "1.0"
