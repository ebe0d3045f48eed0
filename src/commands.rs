//! Command lines for file copies, the multiplexing connection, and the
//! small remote commands built on `exec`.
use vstd::prelude::*;
use crate::chars::{dec, dec_padded, push_all, string_of};
use crate::transport::{SshConnection, arg_views};

verus! {

fn push_arg(v: &mut Vec<String>, s: &str)
    ensures
        arg_views(final(v)@) == arg_views(old(v)@).push(s@),
{
    let ghost before = v@;
    v.push(s.to_owned());
    assert(arg_views(v@) =~= arg_views(before).push(s@));
}

fn push_owned(v: &mut Vec<String>, s: String)
    ensures
        arg_views(final(v)@) == arg_views(old(v)@).push(s@),
{
    let ghost before = v@;
    let ghost sv = s@;
    v.push(s);
    assert(arg_views(v@) =~= arg_views(before).push(sv));
}

fn prefixed(lit: &str, rest: &str) -> (r: String)
    ensures
        r@ == lit@ + rest@,
{
    let mut s = lit.to_owned();
    push_all(&mut s, rest);
    s
}

fn decimal(n: u64) -> (r: String)
    ensures
        r@ == dec(n as nat),
{
    let d = dec_padded(n, 0);
    string_of(&d)
}

/// The key and port arguments, with `port_flag` naming the port option.
pub open spec fn key_port_args(key: Option<String>, port: u16, port_flag: Seq<char>) -> Seq<Seq<char>> {
    let k = match key {
        Some(k) => seq!["-i"@, k@],
        None => Seq::empty(),
    };
    if port != 22 {
        k + seq![port_flag, dec(port as nat)]
    } else {
        k
    }
}

/// The file-copy arguments: batch commands from standard input, no prompts,
/// the control socket, the key, a non-default port, and the destination.
pub open spec fn sftp_args_spec(c: SshConnection) -> Seq<Seq<char>> {
    let base = seq!["-b"@, "-"@, "-o"@, "BatchMode=yes"@];
    let with_socket = match c.control_socket {
        Some(s) => base + seq!["-o"@, "ControlPath="@ + s@],
        None => base,
    };
    with_socket + key_port_args(c.key_path, c.config.port, "-P"@) + seq![
        c.config.user@ + seq!['@'] + c.config.host@,
    ]
}

/// The arguments that open the multiplexing connection at `socket`: it
/// stays in the background for five minutes after its last use.
pub open spec fn control_master_args_spec(c: SshConnection, socket: Seq<char>) -> Seq<Seq<char>> {
    seq![
        "-o"@,
        "BatchMode=yes"@,
        "-o"@,
        "ControlPath="@ + socket,
        "-o"@,
        "ControlMaster=yes"@,
        "-o"@,
        "ControlPersist=300"@,
        "-N"@,
        "-f"@,
    ] + key_port_args(c.key_path, c.config.port, "-p"@) + seq![
        c.config.user@ + seq!['@'] + c.config.host@,
    ]
}

impl SshConnection {
    fn push_key_port(&self, v: &mut Vec<String>, port_flag: &str)
        ensures
            arg_views(final(v)@) == arg_views(old(v)@) + key_port_args(
                self.key_path,
                self.config.port,
                port_flag@,
            ),
    {
        let ghost start = arg_views(v@);
        if let Some(k) = &self.key_path {
            push_arg(v, "-i");
            push_arg(v, k.as_str());
        }
        let ghost mid = arg_views(v@);
        if self.config.port != 22 {
            push_arg(v, port_flag);
            push_owned(v, decimal(self.config.port as u64));
        }
        assert(arg_views(v@) =~= start + key_port_args(self.key_path, self.config.port, port_flag@));
    }

    /// Arguments of a file copy; the copy commands go to its standard input.
    pub fn sftp_args(&self) -> (r: Vec<String>)
        ensures
            arg_views(r@) == sftp_args_spec(*self),
    {
        let mut v: Vec<String> = Vec::new();
        push_arg(&mut v, "-b");
        push_arg(&mut v, "-");
        push_arg(&mut v, "-o");
        push_arg(&mut v, "BatchMode=yes");
        if let Some(s) = &self.control_socket {
            push_arg(&mut v, "-o");
            push_owned(&mut v, prefixed("ControlPath=", s.as_str()));
        }
        self.push_key_port(&mut v, "-P");
        push_owned(&mut v, self.config.ssh_target());
        assert(arg_views(v@) =~= sftp_args_spec(*self));
        v
    }

    /// Arguments that open the multiplexing connection at `socket`.
    pub fn control_master_args(&self, socket: &str) -> (r: Vec<String>)
        ensures
            arg_views(r@) == control_master_args_spec(*self, socket@),
    {
        let mut v: Vec<String> = Vec::new();
        push_arg(&mut v, "-o");
        push_arg(&mut v, "BatchMode=yes");
        push_arg(&mut v, "-o");
        push_owned(&mut v, prefixed("ControlPath=", socket));
        push_arg(&mut v, "-o");
        push_arg(&mut v, "ControlMaster=yes");
        push_arg(&mut v, "-o");
        push_arg(&mut v, "ControlPersist=300");
        push_arg(&mut v, "-N");
        push_arg(&mut v, "-f");
        self.push_key_port(&mut v, "-p");
        push_owned(&mut v, self.config.ssh_target());
        assert(arg_views(v@) =~= control_master_args_spec(*self, socket@));
        v
    }

    /// Arguments that close the multiplexing connection, when one is set.
    pub fn close_master_args(&self) -> (r: Option<Vec<String>>)
        ensures
            self.control_socket is None ==> r is None,
            self.control_socket matches Some(s) ==> (r matches Some(v) && arg_views(v@) == seq![
                "-o"@,
                "ControlPath="@ + s@,
                "-O"@,
                "exit"@,
                self.config.user@ + seq!['@'] + self.config.host@,
            ]),
    {
        match &self.control_socket {
            None => None,
            Some(s) => {
                let mut v: Vec<String> = Vec::new();
                push_arg(&mut v, "-o");
                push_owned(&mut v, prefixed("ControlPath=", s.as_str()));
                push_arg(&mut v, "-O");
                push_arg(&mut v, "exit");
                push_owned(&mut v, self.config.ssh_target());
                Some(v)
            },
        }
    }

    /// The socket file name of this endpoint: `<user>_<host>_<port>`.
    pub fn control_socket_name(&self) -> (r: String)
        ensures
            r@ == self.config.user@ + seq!['_'] + self.config.host@ + seq!['_'] + dec(
                self.config.port as nat,
            ),
    {
        let mut r = self.config.user.clone();
        r.push('_');
        push_all(&mut r, self.config.host.as_str());
        r.push('_');
        push_all(&mut r, decimal(self.config.port as u64).as_str());
        r
    }
}

/// Copy commands that upload `local` to `remote`.
pub fn put_batch(local: &str, remote: &str) -> (r: String)
    ensures
        r@ == "put "@ + local@ + seq![' '] + remote@ + "\nquit\n"@,
{
    let mut r = "put ".to_owned();
    push_all(&mut r, local);
    r.push(' ');
    push_all(&mut r, remote);
    push_all(&mut r, "\nquit\n");
    r
}

/// Copy commands that download `remote` to `local`.
pub fn get_batch(remote: &str, local: &str) -> (r: String)
    ensures
        r@ == "get "@ + remote@ + seq![' '] + local@ + "\nquit\n"@,
{
    let mut r = "get ".to_owned();
    push_all(&mut r, remote);
    r.push(' ');
    push_all(&mut r, local);
    push_all(&mut r, "\nquit\n");
    r
}

/// The remote command that answers `yes` when `remote` is a file, else `no`.
pub fn file_exists_command(remote: &str) -> (r: String)
    ensures
        r@ == "test -f "@ + remote@ + " && echo yes || echo no"@,
{
    let mut r = "test -f ".to_owned();
    push_all(&mut r, remote);
    push_all(&mut r, " && echo yes || echo no");
    r
}

/// Whether the output of the existence test says yes.
pub fn file_exists_answer(output: &str) -> (r: bool)
    ensures
        r == (crate::cleaner::trim_end(crate::cleaner::trim_start(output@)) == "yes"@),
{
    let cs = crate::chars::chars_of(output);
    let t = crate::cleaner::trim_pass(&cs);
    let y = crate::chars::chars_of("yes");
    let ts = string_of(&t);
    let ys = string_of(&y);
    ts == ys
}

/// The remote command that creates `remote` and its parents.
pub fn mkdir_command(remote: &str) -> (r: String)
    ensures
        r@ == "mkdir -p "@ + remote@,
{
    prefixed("mkdir -p ", remote)
}

/// The remote command that removes the file `remote`, if present.
pub fn remove_command(remote: &str) -> (r: String)
    ensures
        r@ == "rm -f "@ + remote@,
{
    prefixed("rm -f ", remote)
}

} // verus!
