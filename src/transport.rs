//! Command lines for the remote-shell transport. The child processes
//! themselves are run by the caller; this module decides their arguments.
use vstd::prelude::*;
use crate::chars::{chars_of, dec, dec_padded, push_all, string_of};
use crate::config::WorkerConfig;

verus! {

/// Relies on `dirs::home_dir`: the current user's home directory, if known.
#[verifier::external_body]
pub(crate) fn home_dir() -> (r: Option<String>) {
    dirs::home_dir().map(|p| p.to_string_lossy().into_owned())
}

/// The path `base` joined with `rest`, as `std::path::Path::join` forms it.
pub uninterp spec fn path_join_of(base: Seq<char>, rest: Seq<char>) -> Seq<char>;

/// Relies on `std::path::Path::join`: the result depends on the two paths alone.
#[verifier::external_body]
pub(crate) fn path_join(base: &str, rest: &str) -> (r: String)
    ensures
        r@ == path_join_of(base@, rest@),
{
    std::path::Path::new(base).join(rest).to_string_lossy().into_owned()
}

/// Whether a key path starts with `~/`.
pub open spec fn starts_with_home(p: Seq<char>) -> bool {
    p.len() >= 2 && p[0] == '~' && p[1] == '/'
}

/// `~/` at the start of a key path expanded against `home`; the path is
/// returned unchanged when it has no such start or `home` is not known.
pub fn expand_home_in(path: &str, home: Option<&str>) -> (r: String)
    ensures
        starts_with_home(path@) && home is Some ==> r@ == path_join_of(home->0@, path@.skip(2)),
        !(starts_with_home(path@) && home is Some) ==> r@ == path@,
{
    let cs = chars_of(path);
    if cs.len() >= 2 && cs[0] == '~' && cs[1] == '/' {
        match home {
            Some(h) => {
                let mut rest: Vec<char> = Vec::new();
                let mut i: usize = 2;
                while i < cs.len()
                    invariant
                        2 <= i <= cs@.len(),
                        rest@ == cs@.subrange(2, i as int),
                    decreases cs@.len() - i,
                {
                    rest.push(cs[i]);
                    i = i + 1;
                    assert(rest@ =~= cs@.subrange(2, i as int));
                }
                assert(rest@ =~= path@.skip(2));
                let rest_s = string_of(&rest);
                path_join(h, rest_s.as_str())
            },
            None => path.to_owned(),
        }
    } else {
        path.to_owned()
    }
}

/// `~/` in a key path expanded against the current user's home directory,
/// when that is known.
pub fn expand_home(path: &str) -> (r: String)
    ensures
        !starts_with_home(path@) ==> r@ == path@,
        starts_with_home(path@) ==> r@ == path@ || exists|h: Seq<char>|
            r@ == path_join_of(h, path@.skip(2)),
{
    let home = home_dir();
    match &home {
        Some(h) => expand_home_in(path, Some(h.as_str())),
        None => expand_home_in(path, None),
    }
}

impl WorkerConfig {
    /// The SSH key path with `~/` expanded.
    pub fn expanded_ssh_key(&self) -> (r: Option<String>)
        ensures
            r is Some <==> self.ssh_key is Some,
            r matches Some(p) ==> (!starts_with_home(self.ssh_key->0@) ==> p@ == self.ssh_key->0@),
            r matches Some(p) ==> (starts_with_home(self.ssh_key->0@) ==> p@ == self.ssh_key->0@
                || exists|h: Seq<char>| p@ == path_join_of(h, self.ssh_key->0@.skip(2))),
    {
        match &self.ssh_key {
            Some(k) => Some(expand_home(k.as_str())),
            None => None,
        }
    }
}

/// The characters of each argument.
pub open spec fn arg_views(v: Seq<String>) -> Seq<Seq<char>> {
    v.map_values(|s: String| s@)
}

/// Arguments shared by every remote-shell invocation.
pub open spec fn ssh_args_spec(
    timeout_secs: u64,
    control_socket: Option<Seq<char>>,
    key: Option<Seq<char>>,
    port: u16,
) -> Seq<Seq<char>> {
    let base = seq![
        "-o"@,
        "BatchMode=yes"@,
        "-o"@,
        "StrictHostKeyChecking=accept-new"@,
        "-o"@,
        "ConnectTimeout="@ + dec(timeout_secs as nat),
    ];
    let with_socket = match control_socket {
        Some(s) => base + seq![
            "-o"@,
            "ControlPath="@ + s,
            "-o"@,
            "ControlMaster=auto"@,
            "-o"@,
            "ControlPersist=60"@,
        ],
        None => base,
    };
    let with_key = match key {
        Some(k) => with_socket + seq!["-i"@, k],
        None => with_socket,
    };
    if port != 22 {
        with_key + seq!["-p"@, dec(port as nat)]
    } else {
        with_key
    }
}

/// A connection to one worker: its configuration, the timeout of each
/// operation, and the multiplexing socket once one is set up.
#[derive(Debug)]
pub struct SshConnection {
    pub config: WorkerConfig,
    /// The key path with `~/` expanded.
    pub key_path: Option<String>,
    /// Timeout of each operation, in seconds.
    pub timeout_secs: u64,
    /// The multiplexing socket, once one is set up.
    pub control_socket: Option<String>,
}

fn string_vec_push(v: &mut Vec<String>, s: &str)
    ensures
        arg_views(final(v)@) == arg_views(old(v)@).push(s@),
{
    let ghost before = v@;
    v.push(s.to_owned());
    assert(arg_views(v@) =~= arg_views(before).push(s@));
}

fn string_vec_push_owned(v: &mut Vec<String>, s: String)
    ensures
        arg_views(final(v)@) == arg_views(old(v)@).push(s@),
{
    let ghost before = v@;
    let ghost sv = s@;
    v.push(s);
    assert(arg_views(v@) =~= arg_views(before).push(sv));
}

fn decimal_string(n: u64) -> (r: String)
    ensures
        r@ == dec(n as nat),
{
    let d = dec_padded(n, 0);
    string_of(&d)
}

fn literal_then(lit: &str, rest: &str) -> (r: String)
    ensures
        r@ == lit@ + rest@,
{
    let mut s = lit.to_owned();
    push_all(&mut s, rest);
    s
}

impl SshConnection {
    /// The common arguments, as `ssh_args` builds them.
    pub open spec fn spec_ssh_args(&self) -> Seq<Seq<char>> {
        ssh_args_spec(
            self.timeout_secs,
            match self.control_socket {
                Some(s) => Some(s@),
                None => None,
            },
            match self.key_path {
                Some(k) => Some(k@),
                None => None,
            },
            self.config.port,
        )
    }

    pub fn new(config: WorkerConfig, timeout_secs: u64) -> (r: Self)
        ensures
            r.config == config,
            r.timeout_secs == timeout_secs,
            r.control_socket is None,
            r.key_path is Some <==> config.ssh_key is Some,
            r.key_path matches Some(p) ==> (!starts_with_home(config.ssh_key->0@) ==> p@
                == config.ssh_key->0@),
            r.key_path matches Some(p) ==> (starts_with_home(config.ssh_key->0@) ==> p@
                == config.ssh_key->0@ || exists|h: Seq<char>|
                p@ == path_join_of(h, config.ssh_key->0@.skip(2))),
    {
        let key_path = config.expanded_ssh_key();
        SshConnection { config, key_path, timeout_secs, control_socket: None }
    }

    /// The worker's name.
    pub fn name(&self) -> (r: &str)
        ensures
            r@ == self.config.name@,
    {
        self.config.name.as_str()
    }

    /// Routes later invocations through a multiplexing socket.
    pub fn set_control_socket(&mut self, path: String)
        ensures
            final(self).control_socket == Some(path),
            final(self).config == old(self).config,
            final(self).timeout_secs == old(self).timeout_secs,
            final(self).key_path == old(self).key_path,
    {
        self.control_socket = Some(path);
    }

    /// Stops using the multiplexing socket; returns its path, if one was set.
    pub fn take_control_socket(&mut self) -> (r: Option<String>)
        ensures
            r == old(self).control_socket,
            final(self).control_socket is None,
            final(self).config == old(self).config,
            final(self).timeout_secs == old(self).timeout_secs,
            final(self).key_path == old(self).key_path,
    {
        self.control_socket.take()
    }

    /// The common remote-shell arguments: batch mode, accept-new host keys,
    /// the connection timeout, the control socket, the key and a non-default port.
    pub fn ssh_args(&self) -> (r: Vec<String>)
        ensures
            arg_views(r@) == self.spec_ssh_args(),
    {
        let mut args: Vec<String> = Vec::new();
        string_vec_push(&mut args, "-o");
        string_vec_push(&mut args, "BatchMode=yes");
        string_vec_push(&mut args, "-o");
        string_vec_push(&mut args, "StrictHostKeyChecking=accept-new");
        string_vec_push(&mut args, "-o");
        let t = decimal_string(self.timeout_secs);
        string_vec_push_owned(&mut args, literal_then("ConnectTimeout=", t.as_str()));
        if let Some(socket) = &self.control_socket {
            string_vec_push(&mut args, "-o");
            string_vec_push_owned(&mut args, literal_then("ControlPath=", socket.as_str()));
            string_vec_push(&mut args, "-o");
            string_vec_push(&mut args, "ControlMaster=auto");
            string_vec_push(&mut args, "-o");
            string_vec_push(&mut args, "ControlPersist=60");
        }
        if let Some(k) = &self.key_path {
            string_vec_push(&mut args, "-i");
            string_vec_push(&mut args, k.as_str());
        }
        if self.config.port != 22 {
            string_vec_push(&mut args, "-p");
            string_vec_push_owned(&mut args, decimal_string(self.config.port as u64));
        }
        assert(arg_views(args@) =~= self.spec_ssh_args());
        args
    }

    /// Arguments to run `command` on the worker.
    pub fn exec_args(&self, command: &str) -> (r: Vec<String>)
        ensures
            arg_views(r@) == self.spec_ssh_args().push(
                self.config.user@ + seq!['@'] + self.config.host@,
            ).push(command@),
    {
        let mut args = self.ssh_args();
        string_vec_push_owned(&mut args, self.config.ssh_target());
        string_vec_push(&mut args, command);
        args
    }
}

} // verus!
