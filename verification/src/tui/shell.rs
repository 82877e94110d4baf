//! How a command typed in the shell input is run: on the bastion host over
//! `ssh` when the connection goes through one, else locally with `sh -c`.
use vstd::prelude::*;
use crate::query::{decimal, push_decimal};
use crate::text::{chars_of, push_str, string_of};

verus! {

/// The SSH bastion a connection goes through.
pub struct BastionTarget {
    pub host: String,
    pub port: u16,
    pub user: String,
    /// The private key file; without one `ssh` asks its agent.
    pub key_path: Option<String>,
}

/// The texts of a list of strings.
pub open spec fn texts(v: Seq<String>) -> Seq<Seq<char>> {
    v.map_values(|s: String| s@)
}

/// The arguments of `ssh` that run `cmd` on the bastion `b`:
/// `-p <port> <user>@<host> [-i <key>] <cmd>`.
pub open spec fn ssh_args(b: BastionTarget, cmd: Seq<char>) -> Seq<Seq<char>> {
    let target = b.user@ + seq!['@'] + b.host@;
    let key = match b.key_path {
        Some(k) => seq![seq!['-', 'i'], k@],
        None => Seq::empty(),
    };
    seq![seq!['-', 'p'], decimal(b.port as nat), target] + key + seq![cmd]
}

fn port_text(port: u16) -> (r: String)
    ensures
        r@ == decimal(port as nat),
{
    let mut v: Vec<char> = Vec::new();
    push_decimal(&mut v, port as u128);
    assert(v@ =~= decimal(port as nat));
    string_of(&v)
}

/// The program and arguments that run the shell command `cmd`: through
/// `ssh` on the bastion when there is one, else `sh -c <cmd>` locally.
pub fn shell_invocation(bastion: Option<&BastionTarget>, cmd: &str) -> (r: (String, Vec<String>))
    ensures
        match bastion {
            Some(b) => r.0@ == "ssh"@ && texts(r.1@) == ssh_args(*b, cmd@),
            None => r.0@ == "sh"@ && texts(r.1@) == seq!["-c"@, cmd@],
        },
{
    let mut args: Vec<String> = Vec::new();
    match bastion {
        Some(b) => {
            proof {
                reveal_strlit("-p");
                reveal_strlit("-i");
                assert("-p"@ =~= seq!['-', 'p']);
                assert("-i"@ =~= seq!['-', 'i']);
            }
            let ghost target_text = b.user@ + seq!['@'] + b.host@;
            args.push(string_of(&chars_of("-p")));
            args.push(port_text(b.port));
            let mut target: Vec<char> = chars_of(b.user.as_str());
            target.push('@');
            push_str(&mut target, b.host.as_str());
            assert(target@ =~= target_text);
            args.push(string_of(&target));
            let ghost head = seq![seq!['-', 'p'], decimal(b.port as nat), target_text];
            assert(texts(args@) =~= head);
            let ghost key = match &b.key_path {
                Some(k) => seq![seq!['-', 'i'], k@],
                None => Seq::<Seq<char>>::empty(),
            };
            match &b.key_path {
                Some(k) => {
                    args.push(string_of(&chars_of("-i")));
                    args.push(k.clone());
                },
                None => {},
            }
            assert(texts(args@) =~= head + key);
            args.push(string_of(&chars_of(cmd)));
            assert(texts(args@) =~= head + key + seq![cmd@]);
            (string_of(&chars_of("ssh")), args)
        },
        None => {
            args.push(string_of(&chars_of("-c")));
            args.push(string_of(&chars_of(cmd)));
            assert(texts(args@) =~= seq!["-c"@, cmd@]);
            (string_of(&chars_of("sh")), args)
        },
    }
}

} // verus!
