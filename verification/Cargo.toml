[package]
name = "flats_bot"
version = "0.1.0"
edition = "2021"
publish = false

[dependencies]
anyhow = "=1.0.104"
dotenv = "=0.15.0"
dptree = "=0.5.1"
log = "=0.4.34"
log4rs = "=1.4.0"
regex = "=1.13.1"
reqwest = { version = "=0.12.28", default-features = false, features = ["rustls-tls"] }
scraper = { version = "=0.29.0", default-features = false, features = ["errors"] }
# teloxide-core brings takecell in; 0.1.2 asks for rustc 1.96, later than
# the compiler this crate is built with, so it is held below that.
takecell = "<0.1.2"
teloxide = { version = "=0.17.0", default-features = false, features = ["macros", "ctrlc_handler", "rustls"] }
tokio = { version = "=1.54.1", features = ["rt-multi-thread", "macros", "signal", "sync"] }
