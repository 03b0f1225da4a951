[package]
name = "net-lattice"
version = "0.1.0"
edition = "2021"
publish = false

[dependencies]
futures = "0.3"
libc = "0.2"
rtnetlink = "0.21"
tokio = { version = "1", features = ["rt-multi-thread", "sync", "net", "time"] }
windows = { version = "0.62", features = ["Win32_Foundation", "Win32_NetworkManagement_IpHelper", "Win32_NetworkManagement_Ndis", "Win32_NetworkManagement_WindowsFilteringPlatform", "Win32_Networking_WinSock", "Win32_Security", "Win32_System_Rpc"] }
nftnl = "0.9"
mnl = "0.3"
