[package]
name = "systemd_manager"
version = "0.1.0"
edition = "2021"
publish = false

[dependencies]
dbus = "0.6"
failure = "0.1"
failure_derive = "0.1"
gtk = "0.4"
gdk = "0.8"
pango = "0.4"
sourceview = "0.4"
