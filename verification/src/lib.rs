pub mod cli;
pub mod editor;
pub mod ipv4;
pub mod resolver;
pub mod text;

use vstd::prelude::*;

verus! {

/// Name of the tunnel interface that every host route is bound to.
pub fn tunnel_interface() -> (r: &'static str)
    ensures
        r@ == "tun0"@,
{
    "tun0"
}

/// The arguments of the OS command that installs one host route:
/// `ip route add <ip>/32 dev tun0`.  The caller runs it with elevation
/// and reports a failure for the address when it exits non-zero.
pub fn install_args(ip: &str) -> (r: Vec<String>)
    ensures
        r.deep_view() == seq!["ip"@, "route"@, "add"@, ip@ + "/32"@, "dev"@, "tun0"@],
{
    let mut target = String::from_str(ip);
    target.append("/32");
    let mut r: Vec<String> = Vec::new();
    r.push(String::from_str("ip"));
    r.push(String::from_str("route"));
    r.push(String::from_str("add"));
    r.push(target);
    r.push(String::from_str("dev"));
    r.push(String::from_str("tun0"));
    proof {
        assert(r.deep_view() =~~= seq!["ip"@, "route"@, "add"@, ip@ + "/32"@, "dev"@, "tun0"@]);
    }
    r
}

/// The arguments of the command that restarts the VPN client against the
/// edited config file: `openvpn --config <path>`.  The caller runs it with
/// elevation as a detached process and does not wait for it.
pub fn launch_args(config_path: &str) -> (r: Vec<String>)
    ensures
        r.deep_view() == seq!["openvpn"@, "--config"@, config_path@],
{
    let mut r: Vec<String> = Vec::new();
    r.push(String::from_str("openvpn"));
    r.push(String::from_str("--config"));
    r.push(String::from_str(config_path));
    proof {
        assert(r.deep_view() =~~= seq!["openvpn"@, "--config"@, config_path@]);
    }
    r
}

} // verus!
