//! Windows network configuration plans (routing, NAT, DNS, forwarding).
//!
//! Each function returns the exact list of commands (`netsh` or PowerShell
//! scripts) that configure the tunnel; the host runs them in order and stops
//! at the first failing command marked `required`. Every mutating plan has a
//! matching revert plan. Every address interpolated into a script (a host,
//! gateway or resolver address) is validated as an IP literal first, so no
//! other value in that place can reach a shell; interface names, NAT names
//! and the tunnel subnet are the application's own constants.

use vstd::prelude::*;
use crate::error::VpnError;
use crate::iplit::{check_ip, is_ip_char, is_ip_literal, lemma_ip_literal_chars, lemma_trim_index};
use crate::text::{
    is_digit, lemma_decimal_digits, lemma_parse_decimal, lemma_trim_noop, cat2, cat4, cat3, cat5, cat7, chars_of, decimal, decimal_chars, is_ws, lit, owned, parse_u32, parse_u32_chars,
    push_all, push_str, string_from_chars, string_views, trim, trim_chars,
};

verus! {

/// One command of a configuration plan.
#[derive(Debug)]
pub struct ShellCommand {
    pub program: String,
    pub args: Vec<String>,
    /// A failure of a required command aborts the plan with an error; a
    /// failure of any other command is ignored.
    pub required: bool,
}

/// The mathematical model of a [`ShellCommand`].
pub struct CommandView {
    pub program: Seq<char>,
    pub args: Seq<Seq<char>>,
    pub required: bool,
}

impl View for ShellCommand {
    type V = CommandView;

    open spec fn view(&self) -> CommandView {
        CommandView {
            program: self.program@,
            args: string_views(self.args@),
            required: self.required,
        }
    }
}

/// The models of a plan's commands.
pub open spec fn plan_view(p: Seq<ShellCommand>) -> Seq<CommandView> {
    p.map_values(|c: ShellCommand| c@)
}

/// A PowerShell invocation of `script`.
pub open spec fn pwsh_view(script: Seq<char>, required: bool) -> CommandView {
    CommandView {
        program: "powershell"@,
        args: seq!["-NoProfile"@, "-NonInteractive"@, "-Command"@, script],
        required,
    }
}

/// The text of the refusal for a value that is not an IP literal.
pub open spec fn refusal(value: Seq<char>) -> Seq<char> {
    "refusing non-IP value: "@ + value
}

/// `ensure_ip`: the value, trimmed, is an IP literal.
pub open spec fn ip_ok(value: Seq<char>) -> bool {
    is_ip_literal(trim(value))
}

/// Result of a plan that validates addresses first.
pub open spec fn checked_plan(
    r: Result<Vec<ShellCommand>, VpnError>,
    guards: Seq<Seq<char>>,
    plan: Seq<CommandView>,
) -> bool {
    match r {
        Ok(v) => (forall|i: int| 0 <= i < guards.len() ==> ip_ok(#[trigger] guards[i])) && plan_view(
            v@,
        ) == plan,
        Err(e) => exists|i: int|
            0 <= i < guards.len() && !ip_ok(#[trigger] guards[i]) && (forall|j: int|
                0 <= j < i ==> ip_ok(#[trigger] guards[j])) && e == VpnError::Message(e->Message_0)
                && e->Message_0@ == refusal(guards[i]),
    }
}

/// The script that clears the interface's IPv4 address.
pub open spec fn remove_ip_script(alias: Seq<char>) -> Seq<char> {
    "Remove-NetIPAddress -InterfaceAlias '"@ + alias
        + "' -Confirm:$false -ErrorAction SilentlyContinue"@
}

/// The script that assigns `ip/prefix` to the interface.
pub open spec fn new_ip_script(alias: Seq<char>, ip: Seq<char>, prefix: u8) -> Seq<char> {
    "New-NetIPAddress -InterfaceAlias '"@ + alias + "' -IPAddress "@ + ip + " -PrefixLength "@
        + decimal(prefix as nat) + " -ErrorAction Stop | Out-Null"@
}

/// The script that points the interface's DNS at `server`.
pub open spec fn set_dns_script(alias: Seq<char>, server: Seq<char>) -> Seq<char> {
    "Set-DnsClientServerAddress -InterfaceAlias '"@ + alias + "' -ServerAddresses "@ + server
}

/// The script that restores automatic DNS on the interface.
pub open spec fn reset_dns_script(alias: Seq<char>) -> Seq<char> {
    "Set-DnsClientServerAddress -InterfaceAlias '"@ + alias
        + "' -ResetServerAddresses -ErrorAction SilentlyContinue"@
}

/// The script that removes the route to `prefix` via the interface.
pub open spec fn remove_route_script(prefix: Seq<char>, alias: Seq<char>) -> Seq<char> {
    "Remove-NetRoute -DestinationPrefix '"@ + prefix + "' -InterfaceAlias '"@ + alias
        + "' -Confirm:$false -ErrorAction SilentlyContinue"@
}

/// The script that routes `prefix` into the interface via `gateway`.
pub open spec fn new_tunnel_route_script(
    prefix: Seq<char>,
    alias: Seq<char>,
    gateway: Seq<char>,
) -> Seq<char> {
    "New-NetRoute -DestinationPrefix '"@ + prefix + "' -InterfaceAlias '"@ + alias
        + "' -NextHop "@ + gateway + " -RouteMetric 1 -ErrorAction Stop | Out-Null"@
}

/// The script that removes the host route to `ip`.
pub open spec fn remove_host_route_script(ip: Seq<char>) -> Seq<char> {
    "Remove-NetRoute -DestinationPrefix '"@ + ip + "/32' -Confirm:$false -ErrorAction SilentlyContinue"@
}

/// The script that pins the host route to `ip` to `gateway` on interface `if_index`.
pub open spec fn new_host_route_script(ip: Seq<char>, gateway: Seq<char>, if_index: u32) -> Seq<
    char,
> {
    "New-NetRoute -DestinationPrefix '"@ + ip + "/32' -InterfaceIndex "@ + decimal(if_index as nat)
        + " -NextHop "@ + gateway + " -RouteMetric 1 -ErrorAction Stop | Out-Null"@
}

/// The script that enables IP forwarding on the interface.
pub open spec fn forwarding_script(alias: Seq<char>) -> Seq<char> {
    "Set-NetIPInterface -InterfaceAlias '"@ + alias + "' -Forwarding Enabled -ErrorAction Stop"@
}

/// The script that removes the NAT named `name`.
pub open spec fn remove_nat_script(name: Seq<char>) -> Seq<char> {
    "Remove-NetNat -Name '"@ + name + "' -Confirm:$false -ErrorAction SilentlyContinue"@
}

/// The script that creates the NAT `name` for `subnet`.
pub open spec fn new_nat_script(name: Seq<char>, subnet: Seq<char>) -> Seq<char> {
    "New-NetNat -Name '"@ + name + "' -InternalIPInterfaceAddressPrefix '"@ + subnet
        + "' -ErrorAction Stop | Out-Null"@
}

/// The script that routes the IPv6 `prefix` into the interface (best effort).
pub open spec fn new_v6_route_script(prefix: Seq<char>, alias: Seq<char>) -> Seq<char> {
    "New-NetRoute -DestinationPrefix '"@ + prefix + "' -InterfaceAlias '"@ + alias
        + "' -RouteMetric 1 -ErrorAction SilentlyContinue | Out-Null"@
}

/// The script that reports the physical default route as `"<next-hop> <ifIndex>"`.
pub open spec fn default_gateway_script() -> Seq<char> {
    "Get-NetRoute -DestinationPrefix '0.0.0.0/0' -ErrorAction SilentlyContinue | Sort-Object RouteMetric | Select-Object -First 1 | ForEach-Object { \"$($_.NextHop) $($_.ifIndex)\" }"@
}

// ---------------------------------------------------------------------------
// Address validation
// ---------------------------------------------------------------------------

/// Reject anything that is not a bare IP literal (after trimming) before it
/// can reach a shell command.
pub fn ensure_ip(value: &str) -> (r: Result<(), VpnError>)
    ensures
        r is Ok <==> ip_ok(value@),
        r matches Err(e) ==> e == VpnError::Message(e->Message_0) && e->Message_0@ == refusal(
            value@,
        ),
{
    let cs = chars_of(value);
    let t = trim_chars(cs.as_slice());
    if check_ip(t.as_slice()) {
        Ok(())
    } else {
        let v = chars_of(value);
        let m = cat2("refusing non-IP value: ", v.as_slice());
        assert(m@ == refusal(value@));
        Err(VpnError::Message(m))
    }
}

/// A value accepted by [`ensure_ip`] holds only whitespace, hexadecimal
/// digits, `.` and `:`: no quote, separator or other shell metacharacter is
/// ever accepted.
pub proof fn ensure_ip_admits_no_metacharacters(value: Seq<char>)
    requires
        ip_ok(value),
    ensures
        forall|i: int| 0 <= i < value.len() ==> is_ws(#[trigger] value[i]) || is_ip_char(value[i]),
{
    let (a, b) = lemma_trim_index(value);
    lemma_ip_literal_chars(trim(value));
    assert forall|i: int| 0 <= i < value.len() implies is_ws(#[trigger] value[i]) || is_ip_char(
        value[i],
    ) by {
        if a <= i < b {
            assert(value[i] == trim(value)[i - a]);
        }
    }
}

// ---------------------------------------------------------------------------
// Plans
// ---------------------------------------------------------------------------

fn pwsh(script: String, required: bool) -> (c: ShellCommand)
    ensures
        c@ == pwsh_view(script@, required),
{
    let mut args: Vec<String> = Vec::new();
    args.push(owned("-NoProfile"));
    args.push(owned("-NonInteractive"));
    args.push(owned("-Command"));
    args.push(script);
    let c = ShellCommand { program: owned("powershell"), args, required };
    assert(c@.args =~= pwsh_view(script@, required).args);
    c
}

fn plan2(a: ShellCommand, b: ShellCommand) -> (v: Vec<ShellCommand>)
    ensures
        plan_view(v@) == seq![a@, b@],
{
    let mut v: Vec<ShellCommand> = Vec::new();
    v.push(a);
    v.push(b);
    assert(plan_view(v@) =~= seq![a@, b@]);
    v
}

fn plan4(a: ShellCommand, b: ShellCommand, c: ShellCommand, d: ShellCommand) -> (v: Vec<
    ShellCommand,
>)
    ensures
        plan_view(v@) == seq![a@, b@, c@, d@],
{
    let mut v: Vec<ShellCommand> = Vec::new();
    v.push(a);
    v.push(b);
    v.push(c);
    v.push(d);
    assert(plan_view(v@) =~= seq![a@, b@, c@, d@]);
    v
}

fn plan1(a: ShellCommand) -> (v: Vec<ShellCommand>)
    ensures
        plan_view(v@) == seq![a@],
{
    let mut v: Vec<ShellCommand> = Vec::new();
    v.push(a);
    assert(plan_view(v@) =~= seq![a@]);
    v
}

/// Assign a static IPv4 address to the tunnel interface (clearing any stale
/// address first).
pub fn set_interface_ipv4(alias: &str, ip: &str, prefix: u8) -> (r: Result<
    Vec<ShellCommand>,
    VpnError,
>)
    ensures
        checked_plan(
            r,
            seq![ip@],
            seq![
                pwsh_view(remove_ip_script(alias@), false),
                pwsh_view(new_ip_script(alias@, ip@, prefix), true),
            ],
        ),
{
    match ensure_ip(ip) {
        Err(e) => {
            assert(seq![ip@][0] == ip@);
            return Err(e);
        },
        Ok(()) => {},
    }
    let a = chars_of(alias);
    let i = chars_of(ip);
    let p = decimal_chars(prefix as u64);
    let c1 = pwsh(cat3("Remove-NetIPAddress -InterfaceAlias '", a.as_slice(), "' -Confirm:$false -ErrorAction SilentlyContinue"), false);
    let mut s = lit("New-NetIPAddress -InterfaceAlias '");
    push_all(&mut s, a.as_slice());
    push_str(&mut s, "' -IPAddress ");
    push_all(&mut s, i.as_slice());
    push_str(&mut s, " -PrefixLength ");
    push_all(&mut s, p.as_slice());
    push_str(&mut s, " -ErrorAction Stop | Out-Null");
    let c2 = pwsh(string_from_chars(s.as_slice()), true);
    let v = plan2(c1, c2);
    assert(seq![ip@][0] == ip@);
    Ok(v)
}

/// Set the MTU of the tunnel interface.
pub fn set_mtu(alias: &str, mtu: u32) -> (r: Vec<ShellCommand>)
    ensures
        plan_view(r@) == seq![
            CommandView {
                program: "netsh"@,
                args: seq![
                    "interface"@,
                    "ipv4"@,
                    "set"@,
                    "subinterface"@,
                    alias@,
                    "mtu="@ + decimal(mtu as nat),
                    "store=active"@,
                ],
                required: true,
            },
        ],
{
    let d = decimal_chars(mtu as u64);
    let mut args: Vec<String> = Vec::new();
    args.push(owned("interface"));
    args.push(owned("ipv4"));
    args.push(owned("set"));
    args.push(owned("subinterface"));
    args.push(owned(alias));
    args.push(cat2("mtu=", d.as_slice()));
    args.push(owned("store=active"));
    let c = ShellCommand { program: owned("netsh"), args, required: true };
    assert(c@.args =~= seq![
        "interface"@,
        "ipv4"@,
        "set"@,
        "subinterface"@,
        alias@,
        "mtu="@ + decimal(mtu as nat),
        "store=active"@,
    ]);
    plan1(c)
}

/// Point the tunnel interface's DNS at the given resolver (prevents DNS leaks).
pub fn set_dns(alias: &str, server: &str) -> (r: Result<Vec<ShellCommand>, VpnError>)
    ensures
        checked_plan(r, seq![server@], seq![pwsh_view(set_dns_script(alias@, server@), true)]),
{
    match ensure_ip(server) {
        Err(e) => {
            assert(seq![server@][0] == server@);
            return Err(e);
        },
        Ok(()) => {},
    }
    let a = chars_of(alias);
    let s = chars_of(server);
    let c = pwsh(cat4("Set-DnsClientServerAddress -InterfaceAlias '", a.as_slice(), "' -ServerAddresses ", s.as_slice()), true);
    assert(seq![server@][0] == server@);
    Ok(plan1(c))
}

/// Restore automatic (DHCP) DNS on the tunnel interface.
pub fn reset_dns(alias: &str) -> (r: Vec<ShellCommand>)
    ensures
        plan_view(r@) == seq![pwsh_view(reset_dns_script(alias@), false)],
{
    let a = chars_of(alias);
    plan1(pwsh(cat3("Set-DnsClientServerAddress -InterfaceAlias '", a.as_slice(), "' -ResetServerAddresses -ErrorAction SilentlyContinue"), false))
}

/// The command that reports the physical default route.
pub fn default_gateway_command() -> (c: ShellCommand)
    ensures
        c@ == pwsh_view(default_gateway_script(), true),
{
    pwsh(owned("Get-NetRoute -DestinationPrefix '0.0.0.0/0' -ErrorAction SilentlyContinue | Sort-Object RouteMetric | Select-Object -First 1 | ForEach-Object { \"$($_.NextHop) $($_.ifIndex)\" }"), true)
}

/// Maximal runs of non-whitespace characters (`str::split_whitespace`).
pub open spec fn tokens(s: Seq<char>) -> Seq<Seq<char>>
    decreases s.len(),
{
    if s.len() == 0 {
        Seq::<Seq<char>>::empty()
    } else if is_ws(s.last()) {
        tokens(s.drop_last())
    } else if s.len() > 1 && !is_ws(s[s.len() - 2]) {
        let t = tokens(s.drop_last());
        t.update(t.len() - 1, t.last().push(s.last()))
    } else {
        tokens(s.drop_last()).push(seq![s.last()])
    }
}

/// The default gateway named by the output of the default-route script.
pub open spec fn gateway_of(out: Seq<char>) -> Option<(Seq<char>, u32)> {
    let t = tokens(out);
    if t.len() >= 2 && parse_u32(t[1]) is Some && t[0] != "0.0.0.0"@ {
        Some((t[0], parse_u32(t[1])->0))
    } else {
        None
    }
}

proof fn lemma_tokens_nonempty_when_word(s: Seq<char>)
    requires
        s.len() > 0,
        !is_ws(s.last()),
    ensures
        tokens(s).len() > 0,
    decreases s.len(),
{
    if s.len() > 1 && !is_ws(s[s.len() - 2]) {
        lemma_tokens_nonempty_when_word(s.drop_last());
    }
}

/// The runs of non-whitespace characters of `s`.
pub fn split_whitespace_chars(s: &[char]) -> (out: Vec<Vec<char>>)
    ensures
        crate::text::views(out@) == tokens(s@),
{
    let n = s.len();
    let mut done: Vec<Vec<char>> = Vec::new();
    let mut cur: Vec<char> = Vec::new();
    assert(s@.take(0) =~= Seq::<char>::empty());
    for i in 0..n
        invariant
            n == s@.len(),
            cur@.len() > 0 <==> (i > 0 && !is_ws(s@[i - 1])),
            cur@.len() > 0 ==> crate::text::views(done@).push(cur@) == tokens(s@.take(i as int)),
            cur@.len() == 0 ==> crate::text::views(done@) == tokens(s@.take(i as int)),
    {
        let c = s[i];
        let ghost before = s@.take(i as int);
        let ghost after = s@.take(i + 1);
        assert(after.drop_last() == before);
        assert(after.last() == c);
        let ghost old_done = done@;
        if crate::text::char_is_ws(c) {
            if cur.len() > 0 {
                let mut w: Vec<char> = Vec::new();
                std::mem::swap(&mut w, &mut cur);
                done.push(w);
                assert(crate::text::views(done@) =~= crate::text::views(old_done).push(w@));
            }
        } else {
            if cur.len() > 0 {
                assert(after[i - 1] == s@[i - 1]);
                let ghost t = tokens(before);
                proof {
                    lemma_tokens_nonempty_when_word(before);
                }
                cur.push(c);
                assert(crate::text::views(done@).push(cur@) =~= t.update(t.len() - 1, t.last().push(c)));
            } else {
                if i > 0 {
                    assert(after[i - 1] == s@[i - 1]);
                }
                cur.push(c);
                assert(cur@ =~= seq![c]);
            }
        }
    }
    assert(s@.take(n as int) == s@);
    if cur.len() > 0 {
        let ghost old_done = done@;
        done.push(cur);
        assert(crate::text::views(done@) =~= crate::text::views(old_done).push(cur@));
    }
    done
}

/// The physical default gateway as `(next_hop_ip, interface_index)`, read
/// from the output of [`default_gateway_command`]; `None` when the output
/// names no usable gateway.
pub fn default_gateway(output: &str) -> (r: Option<(String, u32)>)
    ensures
        match gateway_of(output@) {
            Some((ip, idx)) => r matches Some(g) && g.0@ == ip && g.1 == idx,
            None => r is None,
        },
{
    let cs = chars_of(output);
    let t = split_whitespace_chars(cs.as_slice());
    if t.len() < 2 {
        return None;
    }
    assert(t@[0]@ == tokens(output@)[0]);
    assert(t@[1]@ == tokens(output@)[1]);
    let idx = match parse_u32_chars(t[1].as_slice()) {
        Some(v) => v,
        None => return None,
    };
    let zero = lit("0.0.0.0");
    if crate::text::starts_with_chars(t[0].as_slice(), zero.as_slice()) && t[0].len() == zero.len() {
        assert(t@[0]@ =~= "0.0.0.0"@);
        return None;
    }
    assert(t@[0]@ != "0.0.0.0"@) by {
        if t@[0]@ == "0.0.0.0"@ {
            assert(t@[0]@.subrange(0, zero@.len() as int) =~= zero@);
        }
    }
    Some((string_from_chars(t[0].as_slice()), idx))
}

/// Install split-default routes that send all traffic into the tunnel.
///
/// Using `0.0.0.0/1` and `128.0.0.0/1` overrides the system default route
/// without deleting it, which keeps teardown clean.
pub fn add_full_tunnel_routes(alias: &str, gateway: &str) -> (r: Result<
    Vec<ShellCommand>,
    VpnError,
>)
    ensures
        checked_plan(
            r,
            seq![gateway@],
            seq![
                pwsh_view(remove_route_script("0.0.0.0/1"@, alias@), false),
                pwsh_view(new_tunnel_route_script("0.0.0.0/1"@, alias@, gateway@), true),
                pwsh_view(remove_route_script("128.0.0.0/1"@, alias@), false),
                pwsh_view(new_tunnel_route_script("128.0.0.0/1"@, alias@, gateway@), true),
            ],
        ),
{
    match ensure_ip(gateway) {
        Err(e) => {
            assert(seq![gateway@][0] == gateway@);
            return Err(e);
        },
        Ok(()) => {},
    }
    let a = chars_of(alias);
    let g = chars_of(gateway);
    let p1 = lit("0.0.0.0/1");
    let p2 = lit("128.0.0.0/1");
    let c1 = pwsh(remove_route(p1.as_slice(), a.as_slice()), false);
    let c2 = pwsh(new_tunnel_route(p1.as_slice(), a.as_slice(), g.as_slice()), true);
    let c3 = pwsh(remove_route(p2.as_slice(), a.as_slice()), false);
    let c4 = pwsh(new_tunnel_route(p2.as_slice(), a.as_slice(), g.as_slice()), true);
    assert(seq![gateway@][0] == gateway@);
    Ok(plan4(c1, c2, c3, c4))
}

fn remove_route(prefix: &[char], alias: &[char]) -> (s: String)
    ensures
        s@ == remove_route_script(prefix@, alias@),
{
    cat5("Remove-NetRoute -DestinationPrefix '", prefix, "' -InterfaceAlias '", alias, "' -Confirm:$false -ErrorAction SilentlyContinue")
}

fn new_tunnel_route(prefix: &[char], alias: &[char], gateway: &[char]) -> (s: String)
    ensures
        s@ == new_tunnel_route_script(prefix@, alias@, gateway@),
{
    cat7("New-NetRoute -DestinationPrefix '", prefix, "' -InterfaceAlias '", alias, "' -NextHop ", gateway, " -RouteMetric 1 -ErrorAction Stop | Out-Null")
}

/// Remove the split-default tunnel routes.
pub fn remove_full_tunnel_routes(alias: &str) -> (r: Vec<ShellCommand>)
    ensures
        plan_view(r@) == seq![
            pwsh_view(remove_route_script("0.0.0.0/1"@, alias@), false),
            pwsh_view(remove_route_script("128.0.0.0/1"@, alias@), false),
        ],
{
    let a = chars_of(alias);
    let p1 = lit("0.0.0.0/1");
    let p2 = lit("128.0.0.0/1");
    plan2(pwsh(remove_route(p1.as_slice(), a.as_slice()), false), pwsh(remove_route(p2.as_slice(), a.as_slice()), false))
}

/// Pin a single carrier address to the physical gateway so the tunnel's own
/// packets bypass the tunnel (prevents a routing loop).
pub fn add_bypass_route(ip: &str, gateway: &str, if_index: u32) -> (r: Result<
    Vec<ShellCommand>,
    VpnError,
>)
    ensures
        checked_plan(
            r,
            seq![ip@, gateway@],
            seq![
                pwsh_view(remove_host_route_script(ip@), false),
                pwsh_view(new_host_route_script(ip@, gateway@, if_index), true),
            ],
        ),
{
    let ghost guards = seq![ip@, gateway@];
    match ensure_ip(ip) {
        Err(e) => {
            assert(guards[0] == ip@);
            return Err(e);
        },
        Ok(()) => {},
    }
    match ensure_ip(gateway) {
        Err(e) => {
            assert(guards[1] == gateway@);
            assert(guards[0] == ip@);
            return Err(e);
        },
        Ok(()) => {},
    }
    let i = chars_of(ip);
    let g = chars_of(gateway);
    let d = decimal_chars(if_index as u64);
    let c1 = pwsh(cat3("Remove-NetRoute -DestinationPrefix '", i.as_slice(), "/32' -Confirm:$false -ErrorAction SilentlyContinue"), false);
    let c2 = pwsh(cat7("New-NetRoute -DestinationPrefix '", i.as_slice(), "/32' -InterfaceIndex ", d.as_slice(), " -NextHop ", g.as_slice(), " -RouteMetric 1 -ErrorAction Stop | Out-Null"), true);
    assert(guards[0] == ip@ && guards[1] == gateway@);
    Ok(plan2(c1, c2))
}

/// Remove a previously added carrier bypass route. The address is validated
/// first, so a value that is not an IP literal never reaches the shell.
pub fn remove_bypass_route(ip: &str) -> (r: Result<Vec<ShellCommand>, VpnError>)
    ensures
        checked_plan(r, seq![ip@], seq![pwsh_view(remove_host_route_script(ip@), false)]),
{
    match ensure_ip(ip) {
        Err(e) => {
            assert(seq![ip@][0] == ip@);
            return Err(e);
        },
        Ok(()) => {},
    }
    let i = chars_of(ip);
    assert(seq![ip@][0] == ip@);
    Ok(plan1(pwsh(cat3("Remove-NetRoute -DestinationPrefix '", i.as_slice(), "/32' -Confirm:$false -ErrorAction SilentlyContinue"), false)))
}

/// Enable IP forwarding on an interface (host gateway side).
pub fn enable_forwarding(alias: &str) -> (r: Vec<ShellCommand>)
    ensures
        plan_view(r@) == seq![pwsh_view(forwarding_script(alias@), true)],
{
    let a = chars_of(alias);
    plan1(pwsh(cat3("Set-NetIPInterface -InterfaceAlias '", a.as_slice(), "' -Forwarding Enabled -ErrorAction Stop"), true))
}

/// Create a NAT so client traffic is masqueraded out of the host's connection.
pub fn create_nat(name: &str, subnet: &str) -> (r: Vec<ShellCommand>)
    ensures
        plan_view(r@) == seq![
            pwsh_view(remove_nat_script(name@), false),
            pwsh_view(new_nat_script(name@, subnet@), true),
        ],
{
    let n = chars_of(name);
    let s = chars_of(subnet);
    plan2(
        pwsh(cat3("Remove-NetNat -Name '", n.as_slice(), "' -Confirm:$false -ErrorAction SilentlyContinue"), false),
        pwsh(cat5("New-NetNat -Name '", n.as_slice(), "' -InternalIPInterfaceAddressPrefix '", s.as_slice(), "' -ErrorAction Stop | Out-Null"), true),
    )
}

/// Remove the host NAT.
pub fn remove_nat(name: &str) -> (r: Vec<ShellCommand>)
    ensures
        plan_view(r@) == seq![pwsh_view(remove_nat_script(name@), false)],
{
    let n = chars_of(name);
    plan1(pwsh(cat3("Remove-NetNat -Name '", n.as_slice(), "' -Confirm:$false -ErrorAction SilentlyContinue"), false))
}

/// Block all IPv6 while the IPv4 tunnel is up by routing the IPv6 default
/// into the (IPv4-only) tunnel adapter, where it is dropped. Best effort:
/// every step may fail without aborting.
pub fn add_ipv6_killswitch(alias: &str) -> (r: Vec<ShellCommand>)
    ensures
        plan_view(r@) == seq![
            pwsh_view(remove_route_script("::/1"@, alias@), false),
            pwsh_view(new_v6_route_script("::/1"@, alias@), false),
            pwsh_view(remove_route_script("8000::/1"@, alias@), false),
            pwsh_view(new_v6_route_script("8000::/1"@, alias@), false),
        ],
{
    let a = chars_of(alias);
    let p1 = lit("::/1");
    let p2 = lit("8000::/1");
    let c1 = pwsh(remove_route(p1.as_slice(), a.as_slice()), false);
    let c2 = pwsh(cat5("New-NetRoute -DestinationPrefix '", p1.as_slice(), "' -InterfaceAlias '", a.as_slice(), "' -RouteMetric 1 -ErrorAction SilentlyContinue | Out-Null"), false);
    let c3 = pwsh(remove_route(p2.as_slice(), a.as_slice()), false);
    let c4 = pwsh(cat5("New-NetRoute -DestinationPrefix '", p2.as_slice(), "' -InterfaceAlias '", a.as_slice(), "' -RouteMetric 1 -ErrorAction SilentlyContinue | Out-Null"), false);
    plan4(c1, c2, c3, c4)
}

/// Remove the IPv6 leak kill-switch routes.
pub fn remove_ipv6_killswitch(alias: &str) -> (r: Vec<ShellCommand>)
    ensures
        plan_view(r@) == seq![
            pwsh_view(remove_route_script("::/1"@, alias@), false),
            pwsh_view(remove_route_script("8000::/1"@, alias@), false),
        ],
{
    let a = chars_of(alias);
    let p1 = lit("::/1");
    let p2 = lit("8000::/1");
    plan2(pwsh(remove_route(p1.as_slice(), a.as_slice()), false), pwsh(remove_route(p2.as_slice(), a.as_slice()), false))
}

// ---------------------------------------------------------------------------
// DNS leak hardening
// ---------------------------------------------------------------------------

/// The policy key of the Windows DNS client.
pub open spec fn dns_policy_key() -> Seq<char> {
    "HKLM:\\SOFTWARE\\Policies\\Microsoft\\Windows NT\\DNSClient"@
}

/// The script that prints the current `DisableSmartNameResolution` policy
/// value (nothing when the policy is not set).
pub open spec fn smart_resolution_query_script() -> Seq<char> {
    "(Get-ItemProperty -Path '"@ + dns_policy_key()
        + "' -Name DisableSmartNameResolution -ErrorAction SilentlyContinue).DisableSmartNameResolution"@
}

/// The script that sets the policy value to `v`.
pub open spec fn set_smart_resolution_script(v: u32) -> Seq<char> {
    "Set-ItemProperty -Path '"@ + dns_policy_key() + "' -Name DisableSmartNameResolution -Value "@
        + decimal(v as nat) + " -Type DWord -ErrorAction SilentlyContinue"@
}

/// The script that removes the policy value.
pub open spec fn clear_smart_resolution_script() -> Seq<char> {
    "Remove-ItemProperty -Path '"@ + dns_policy_key()
        + "' -Name DisableSmartNameResolution -ErrorAction SilentlyContinue"@
}

/// The script that makes sure the policy key exists.
pub open spec fn ensure_policy_key_script() -> Seq<char> {
    "New-Item -Path '"@ + dns_policy_key() + "' -Force -ErrorAction SilentlyContinue | Out-Null"@
}

/// The command that reads the policy value before it is changed.
pub fn smart_resolution_query_command() -> (c: ShellCommand)
    ensures
        c@ == pwsh_view(smart_resolution_query_script(), true),
{
    let k = lit("HKLM:\\SOFTWARE\\Policies\\Microsoft\\Windows NT\\DNSClient");
    pwsh(cat3("(Get-ItemProperty -Path '", k.as_slice(), "' -Name DisableSmartNameResolution -ErrorAction SilentlyContinue).DisableSmartNameResolution"), true)
}

/// The policy value printed by the query: the number, or `None` when the
/// policy is not set (or the output is not a number).
pub open spec fn prior_smart_resolution_spec(output: Seq<char>) -> Option<u32> {
    parse_u32(trim(output))
}

/// Read the prior policy value from the query's output.
pub fn prior_smart_resolution(output: &str) -> (r: Option<u32>)
    ensures
        r == prior_smart_resolution_spec(output@),
{
    let oc = chars_of(output);
    let t = trim_chars(oc.as_slice());
    parse_u32_chars(t.as_slice())
}

/// Stop Windows from querying every network's resolver in parallel while
/// the tunnel is up ("smart multi-homed name resolution"), so no lookup
/// leaves outside the tunnel. Best effort.
pub fn disable_smart_resolution() -> (r: Vec<ShellCommand>)
    ensures
        plan_view(r@) == seq![
            pwsh_view(ensure_policy_key_script(), false),
            pwsh_view(set_smart_resolution_script(1), false),
        ],
{
    let k = lit("HKLM:\\SOFTWARE\\Policies\\Microsoft\\Windows NT\\DNSClient");
    plan2(
        pwsh(cat3("New-Item -Path '", k.as_slice(), "' -Force -ErrorAction SilentlyContinue | Out-Null"), false),
        pwsh(set_value_script(k.as_slice(), 1), false),
    )
}

/// The plan that puts the policy back as it was before the tunnel: the prior
/// value when there was one, otherwise no value at all. Best effort.
pub open spec fn restore_smart_resolution_spec(prior: Option<u32>) -> Seq<CommandView> {
    match prior {
        Some(v) => seq![pwsh_view(set_smart_resolution_script(v), false)],
        None => seq![pwsh_view(clear_smart_resolution_script(), false)],
    }
}

/// Restore the policy value captured before the tunnel came up.
pub fn restore_smart_resolution(prior: Option<u32>) -> (r: Vec<ShellCommand>)
    ensures
        plan_view(r@) == restore_smart_resolution_spec(prior),
{
    let k = lit("HKLM:\\SOFTWARE\\Policies\\Microsoft\\Windows NT\\DNSClient");
    match prior {
        Some(v) => plan1(pwsh(set_value_script(k.as_slice(), v), false)),
        None => plan1(pwsh(cat3("Remove-ItemProperty -Path '", k.as_slice(), "' -Name DisableSmartNameResolution -ErrorAction SilentlyContinue"), false)),
    }
}

fn set_value_script(key: &[char], v: u32) -> (s: String)
    requires
        key@ == dns_policy_key(),
    ensures
        s@ == set_smart_resolution_script(v),
{
    let d = decimal_chars(v as u64);
    cat5("Set-ItemProperty -Path '", key, "' -Name DisableSmartNameResolution -Value ", d.as_slice(), " -Type DWord -ErrorAction SilentlyContinue")
}

/// The prior policy is restored exactly: a value the query reports is
/// written back as that same value, and a policy that was not set is
/// removed again.
pub proof fn smart_resolution_restored_exactly(v: u32)
    ensures
        prior_smart_resolution_spec(decimal(v as nat)) == Some(v),
        restore_smart_resolution_spec(prior_smart_resolution_spec(decimal(v as nat))) == seq![
            pwsh_view(set_smart_resolution_script(v), false),
        ],
        restore_smart_resolution_spec(prior_smart_resolution_spec(Seq::<char>::empty())) == seq![
            pwsh_view(clear_smart_resolution_script(), false),
        ],
{
    lemma_decimal_digits(v as nat);
    let d = decimal(v as nat);
    assert(!is_ws(d[0])) by {
        assert(is_digit(d[0]));
    }
    assert(!is_ws(d.last())) by {
        assert(is_digit(d[d.len() - 1]));
    }
    lemma_trim_noop(d);
    lemma_parse_decimal(v as nat, u32::MAX as nat);
}

} // verus!
