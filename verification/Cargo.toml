[package]
name = "git-refspec"
version = "0.1.0"
edition = "2021"
publish = false

[dependencies]
git-hash = "=0.10.3"
gix-error = "=0.5.2"
gix-hash = { version = "=0.28.1", features = ["sha1"] }
gix-object = { version = "=0.66.1", features = ["sha1"] }
gix-pack = { version = "=0.77.0", default-features = false, features = ["sha1"] }
thiserror = "=2.0.21"
