use vpn_router::editor::{add_plan, list_routes, remove_plan, route_line};
use vpn_router::{install_args, launch_args, tunnel_interface};

fn strings(v: &[&str]) -> Vec<String> {
    v.iter().map(|s| s.to_string()).collect()
}

#[test]
fn route_line_format_is_exact() {
    assert_eq!(
        route_line("93.184.216.34"),
        "route 93.184.216.34 255.255.255.255 net_gateway\n"
    );
}

#[test]
fn add_appends_nopull_and_installs_new_route() {
    let content = "remote vpn.example.com 1194\n";
    let plan = add_plan(content, &strings(&["93.184.216.34"]));
    assert_eq!(
        plan.config,
        "remote vpn.example.com 1194\nroute-nopull\n"
    );
    assert_eq!(plan.installs, strings(&["93.184.216.34"]));
    assert_eq!(
        install_args("93.184.216.34"),
        strings(&["ip", "route", "add", "93.184.216.34/32", "dev", "tun0"])
    );
}

#[test]
fn add_twice_keeps_one_nopull_line() {
    let content = "remote vpn.example.com 1194\n";
    let once = add_plan(content, &strings(&["1.2.3.4"]));
    let twice = add_plan(once.config.as_str(), &strings(&["1.2.3.4"]));
    assert_eq!(once.config, twice.config);
    assert_eq!(twice.config.matches("route-nopull").count(), 1);
}

#[test]
fn nopull_check_is_substring_based() {
    let content = "# route-nopull stays off for now\n";
    let plan = add_plan(content, &strings(&[]));
    assert_eq!(plan.config, content);
    assert!(plan.installs.is_empty());
}

#[test]
fn add_skips_route_lines_already_present() {
    let content = "route-nopull\nroute 1.2.3.4 255.255.255.255 net_gateway\n";
    let plan = add_plan(content, &strings(&["1.2.3.4", "5.6.7.8"]));
    assert_eq!(plan.config, content);
    assert_eq!(plan.installs, strings(&["5.6.7.8"]));
}

#[test]
fn remove_drops_matching_route_line() {
    let content = "route-nopull\nroute 93.184.216.34 255.255.255.255 net_gateway\nremote vpn.example.com 1194\n";
    let plan = remove_plan(content, &strings(&["93.184.216.34"]));
    assert_eq!(plan.config, "route-nopull\nremote vpn.example.com 1194\n");
    assert_eq!(
        plan.removed,
        strings(&["route 93.184.216.34 255.255.255.255 net_gateway"])
    );
}

#[test]
fn remove_does_not_overdelete_on_similar_addresses() {
    let content = "route 1.2.3.4 255.255.255.255 net_gateway\nroute 11.2.3.4 255.255.255.255 net_gateway\n";
    let plan = remove_plan(content, &strings(&["11.2.3.4"]));
    assert_eq!(plan.config, "route 1.2.3.4 255.255.255.255 net_gateway\n");
    assert_eq!(
        plan.removed,
        strings(&["route 11.2.3.4 255.255.255.255 net_gateway"])
    );
}

#[test]
fn remove_keeps_non_route_lines_holding_the_address() {
    let content = "# gateway 9.9.9.9\nroute 9.9.9.9 255.255.255.255 net_gateway\n";
    let plan = remove_plan(content, &strings(&["9.9.9.9"]));
    assert_eq!(plan.config, "# gateway 9.9.9.9\n");
}

#[test]
fn remove_terminates_every_kept_line() {
    let content = "keep one\nkeep two";
    let plan = remove_plan(content, &strings(&["1.2.3.4"]));
    assert_eq!(plan.config, "keep one\nkeep two\n");
    assert!(plan.removed.is_empty());
}

#[test]
fn list_prints_exactly_the_route_lines() {
    let content = "route 1.1.1.1 255.255.255.255 net_gateway\nremote example.com 1194\nroute 2.2.2.2 255.255.255.255 net_gateway\n";
    assert_eq!(
        list_routes(content),
        strings(&[
            "route 1.1.1.1 255.255.255.255 net_gateway",
            "route 2.2.2.2 255.255.255.255 net_gateway",
        ])
    );
}

#[test]
fn list_goes_by_the_first_token() {
    let content = "route-nopull\nroute 1.1.1.1 255.255.255.255 net_gateway\nroutefoo bar\nroute\n";
    assert_eq!(
        list_routes(content),
        strings(&["route 1.1.1.1 255.255.255.255 net_gateway", "route"])
    );
}

#[test]
fn list_of_empty_file_is_empty() {
    assert!(list_routes("").is_empty());
}

#[test]
fn launcher_restarts_against_the_config() {
    assert_eq!(
        launch_args("/etc/openvpn/client.conf"),
        strings(&["openvpn", "--config", "/etc/openvpn/client.conf"])
    );
    assert_eq!(tunnel_interface(), "tun0");
}
