[package]
name = "mqtt_servermanager"
version = "0.1.0"
edition = "2021"
publish = false

[dependencies]
rumqttc = "*"
fastrand = "*"
