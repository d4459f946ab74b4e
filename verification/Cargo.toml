[package]
name = "itmo_terminal"
version = "0.1.0"
edition = "2021"
publish = false

[dependencies]
serde = { version = "1", features = ["derive"] }
leptos = { version = "*", features = ["csr"] }
leptos_router = "*"
reqwest = { version = "*", default-features = false, features = ["json"] }
axum = "*"
tokio = { version = "1", features = ["rt-multi-thread", "macros", "net"] }
tower-http = { version = "*", features = ["cors"] }
rusqlite = { version = "*", features = ["bundled"] }
