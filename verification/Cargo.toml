[package]
name = "bevy_mqtt"
version = "0.8.0"
edition = "2021"
publish = false

[dependencies]
bytes = "1"
regex = "1"
rumqttc = { version = "*", default-features = false }
flume = "*"
bevy_ecs = { version = "0.17", default-features = false, features = ["std"] }
bevy_app = { version = "0.17", default-features = false, features = ["std"] }
bevy_log = "0.17"
