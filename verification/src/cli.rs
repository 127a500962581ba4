//! The commands that are not the player: running a server, and managing the music on
//! one from the terminal.
//!
//! ```text
//! tuneterm serve ~/Music
//! tuneterm push ~/Downloads/Lumen            # -> /Lumen on the server
//! tuneterm ls /Lumen
//! tuneterm mv /Lumen/old /Lumen/new
//! tuneterm rm -r /Lumen/junk
//! ```
//!
//! The server comes from `--server` or the one added in the player, which the
//! settings keep along with its token.

use vstd::prelude::*;
use crate::config::{Remote, RemoteV};
use crate::feed::copy_opt;
use crate::remote::{
    self, connection, endpoint_refusal, filled, has_scheme, human_size, joined_path, scheme,
    uri_of, Sent, SentV, Server, ServerV, Stat,
};
use crate::server::Entry;
use crate::text::{self, decimal, opt_view, right_aligned, stripped, views};

verus! {

/// The first argument, when it names one of these, decides the whole run.
pub open spec fn command_names() -> Seq<Seq<char>> {
    seq!["serve"@, "push"@, "ls"@, "rm"@, "mv"@]
}

/// True for the name of a command.
pub fn is_command(name: &str) -> (b: bool)
    ensures
        b == command_names().contains(name@),
{
    let b = text::same(name, "serve") || text::same(name, "push") || text::same(name, "ls")
        || text::same(name, "rm") || text::same(name, "mv");
    proof {
        let all = command_names();
        assert(all[0] == "serve"@ && all[1] == "push"@ && all[2] == "ls"@ && all[3] == "rm"@
            && all[4] == "mv"@);
    }
    b
}

/// What the commands are, for a person.
pub fn help() -> (r: String)
    ensures
        r@ == "SERVER
    tuneterm serve [FOLDER] [--listen ADDR]
                      Serve FOLDER (or $TUNETERM_MUSIC) over gRPC on ADDR,
                      0.0.0.0:7700 by default. With TUNETERM_TOKEN set, clients
                      must present it and may change the library; without it
                      the server is open and read-only.

    tuneterm tuneterm://[TOKEN@]HOST[:PORT]
                      Browse a server in the player exactly like a local folder.

    tuneterm push LOCAL [REMOTE]
                      Upload a file or a folder with everything beneath it.
                      A folder lands as /NAME unless REMOTE says otherwise.
                      Files already there with the same size are skipped.
    tuneterm ls [PATH]
                      List a folder on the server.
    tuneterm mv FROM TO
                      Move or rename on the server.
    tuneterm rm [-r] PATH
                      Remove a file, or a folder with -r.

    These take --server tuneterm://[TOKEN@]HOST[:PORT], or use the server
    added in the player (a on the Local tab), which settings.txt keeps as

        server = tuneterm://nas:7700
        token = something-long"@,
{
    "SERVER
    tuneterm serve [FOLDER] [--listen ADDR]
                      Serve FOLDER (or $TUNETERM_MUSIC) over gRPC on ADDR,
                      0.0.0.0:7700 by default. With TUNETERM_TOKEN set, clients
                      must present it and may change the library; without it
                      the server is open and read-only.

    tuneterm tuneterm://[TOKEN@]HOST[:PORT]
                      Browse a server in the player exactly like a local folder.

    tuneterm push LOCAL [REMOTE]
                      Upload a file or a folder with everything beneath it.
                      A folder lands as /NAME unless REMOTE says otherwise.
                      Files already there with the same size are skipped.
    tuneterm ls [PATH]
                      List a folder on the server.
    tuneterm mv FROM TO
                      Move or rename on the server.
    tuneterm rm [-r] PATH
                      Remove a file, or a folder with -r.

    These take --server tuneterm://[TOKEN@]HOST[:PORT], or use the server
    added in the player (a on the Local tab), which settings.txt keeps as

        server = tuneterm://nas:7700
        token = something-long".to_owned()
}

/// What was given on the command line.
#[derive(Debug)]
pub struct Options {
    pub positional: Vec<String>,
    pub server: Option<String>,
    pub listen: Option<String>,
    pub recursive: bool,
}

/// What an [`Options`] holds.
pub ghost struct OptionsV {
    pub positional: Seq<Seq<char>>,
    pub server: Option<Seq<char>>,
    pub listen: Option<Seq<char>>,
    pub recursive: bool,
}

impl View for Options {
    type V = OptionsV;

    open spec fn view(&self) -> OptionsV {
        OptionsV {
            positional: views(self.positional@),
            server: opt_view(self.server),
            listen: opt_view(self.listen),
            recursive: self.recursive,
        }
    }
}

/// Something that looks like an option: a dash with something behind it.
pub open spec fn looks_like_option(arg: Seq<char>) -> bool {
    arg.len() > 1 && arg[0] == '-'
}

impl OptionsV {
    pub open spec fn none() -> OptionsV {
        OptionsV { positional: seq![], server: None, listen: None, recursive: false }
    }

    /// With the arguments from here on taken in.
    pub open spec fn with(self, args: Seq<Seq<char>>) -> Result<OptionsV, Seq<char>>
        decreases args.len(),
    {
        if args.len() == 0 {
            Ok(self)
        } else if args[0] == "--server"@ || args[0] == "--listen"@ {
            if args.len() < 2 {
                Err(args[0] + " needs a value"@)
            } else if args[0] == "--server"@ {
                OptionsV { server: Some(args[1]), ..self }.with(args.skip(2))
            } else {
                OptionsV { listen: Some(args[1]), ..self }.with(args.skip(2))
            }
        } else if args[0] == "-r"@ || args[0] == "--recursive"@ {
            OptionsV { recursive: true, ..self }.with(args.skip(1))
        } else if looks_like_option(args[0]) {
            Err("unknown option: "@ + args[0] + "\n\nTry --help."@)
        } else {
            OptionsV { positional: self.positional.push(args[0]), ..self }.with(args.skip(1))
        }
    }
}

/// A value that has to follow `args[at - 1]`.
fn value(args: &Vec<String>, at: usize) -> (r: Result<String, String>)
    requires
        0 < at <= args@.len(),
    ensures
        match r {
            Ok(v) => at < args@.len() && v@ == args@[at as int]@,
            Err(why) => at == args@.len() && why@ == args@[at - 1]@ + " needs a value"@,
        },
{
    if at < args.len() {
        Ok(args[at].clone())
    } else {
        Err(text::cat2(args[at - 1].as_str(), " needs a value"))
    }
}

impl Options {
    /// Read the arguments behind a command's name.
    pub fn parse(args: &Vec<String>) -> (r: Result<Options, String>)
        ensures
            match r {
                Ok(o) => OptionsV::none().with(views(args@)) == Ok::<OptionsV, Seq<char>>(o@),
                Err(why) => OptionsV::none().with(views(args@)) == Err::<OptionsV, Seq<char>>(
                    why@,
                ),
            },
    {
        let ghost all = views(args@);
        let n: usize = args.len();
        let mut o = Options {
            positional: Vec::new(),
            server: None,
            listen: None,
            recursive: false,
        };
        let mut i: usize = 0;
        proof {
            assert(o@.positional =~= seq![]);
            assert(all.skip(0) =~= all);
        }
        while i < n
            invariant
                i <= n,
                n == args@.len(),
                all == views(args@),
                OptionsV::none().with(all) == o@.with(all.skip(i as int)),
            decreases n - i,
        {
            let arg = args[i].as_str();
            let ghost rest = all.skip(i as int);
            let ghost was = o@;
            proof {
                assert(rest[0] == arg@);
                assert(rest.skip(1) =~= all.skip(i as int + 1));
                if i + 1 < n {
                    assert(rest[1] == args@[i + 1]@);
                    assert(rest.skip(2) =~= all.skip(i as int + 2));
                }
            }
            let v = text::chars_of(arg);
            if text::same(arg, "--server") {
                match value(args, i + 1) {
                    Ok(s) => {
                        o.server = Some(s);
                        i = i + 2;
                    },
                    Err(why) => {
                        return Err(why);
                    },
                }
            } else if text::same(arg, "--listen") {
                match value(args, i + 1) {
                    Ok(s) => {
                        proof {
                            reveal_strlit("--server");
                            reveal_strlit("--listen");
                        }
                        o.listen = Some(s);
                        i = i + 2;
                    },
                    Err(why) => {
                        return Err(why);
                    },
                }
            } else if text::same(arg, "-r") || text::same(arg, "--recursive") {
                o.recursive = true;
                i = i + 1;
            } else if v.len() > 1 && v[0] == '-' {
                return Err(text::cat3("unknown option: ", arg, "\n\nTry --help."));
            } else {
                o.positional.push(arg.to_owned());
                assert(o@.positional =~= was.positional.push(arg@));
                i = i + 1;
            }
        }
        assert(all.skip(i as int).len() == 0);
        Ok(o)
    }

    /// The server to talk to: `--server`, or the one added in the player. The token
    /// from the settings goes with either, unless the address carries its own.
    pub fn server(&self, configured: &Remote) -> (r: Result<Server, String>)
        ensures
            match r {
                Ok(s) => server_for(self@, configured@) == Ok::<ServerV, Seq<char>>(s@),
                Err(why) => server_for(self@, configured@) == Err::<ServerV, Seq<char>>(why@),
            },
    {
        let url = match self.address(configured) {
            Some(url) => url,
            None => {
                return Err(
                    "which server? pass --server, or add one in the player with `a`".to_owned(),
                );
            },
        };
        let token = match &configured.token {
            Some(t) => Some(t.as_str()),
            None => None,
        };
        Server::connect(url.as_str(), token)
    }

    /// The address to use, if there is one.
    pub fn address(&self, configured: &Remote) -> (r: Option<String>)
        ensures
            opt_view(r) == server_address(self@, configured@),
    {
        let given = match &self.server {
            Some(s) => Some(s.clone()),
            None => copy_opt(&configured.server),
        };
        match given {
            Some(s) => if s.as_str().is_empty() {
                None
            } else if remote::is_remote(s.as_str()) {
                Some(s)
            } else {
                Some(text::cat2("tuneterm://", s.as_str()))
            },
            None => None,
        }
    }

    /// The folder to serve.
    pub fn serve_root(&self, music: &Option<String>) -> (r: Result<String, String>)
        ensures
            match r {
                Ok(root) => if self@.positional.len() > 0 {
                    root@ == self@.positional[0]
                } else {
                    opt_view(*music) == Some(root@)
                },
                Err(why) => self@.positional.len() == 0 && music is None && why@
                    == "which folder? tuneterm serve FOLDER"@,
            },
    {
        if self.positional.len() > 0 {
            return Ok(self.positional[0].clone());
        }
        match music {
            Some(m) => Ok(m.clone()),
            None => Err("which folder? tuneterm serve FOLDER".to_owned()),
        }
    }

    /// Where to listen, as it is written.
    pub fn serve_listen(&self, listen: &Option<String>) -> (r: String)
        ensures
            r@ == (match (self@.listen, opt_view(*listen)) {
                (Some(l), _) => l,
                (None, Some(l)) => l,
                (None, None) => "0.0.0.0:7700"@,
            }),
    {
        match &self.listen {
            Some(l) => l.clone(),
            None => match listen {
                Some(l) => l.clone(),
                None => "0.0.0.0:7700".to_owned(),
            },
        }
    }
}

/// The address that `--server` or the settings give.
pub open spec fn server_address(o: OptionsV, configured: RemoteV) -> Option<Seq<char>> {
    let given = match o.server {
        Some(s) => Some(s),
        None => configured.server,
    };
    match filled(given) {
        Some(s) => if has_scheme(s) {
            Some(s)
        } else {
            Some(scheme() + s)
        },
        None => None,
    }
}

/// A remote path as typed, normalised to the protocol's form.
pub fn wire(path: &str) -> (r: String)
    ensures
        r@ == stripped(path@, '/'),
{
    text::strip(path, '/').to_owned()
}

/// What a command comes to, once its arguments are understood.
#[derive(Debug)]
pub enum Plan {
    Serve,
    Push { local: String, target: Option<String> },
    Ls { path: String },
    Mv { from: String, to: String },
    Rm { paths: Vec<String>, recursive: bool },
}

/// What a [`Plan`] holds.
pub ghost enum PlanV {
    Serve,
    Push { local: Seq<char>, target: Option<Seq<char>> },
    Ls { path: Seq<char> },
    Mv { from: Seq<char>, to: Seq<char> },
    Rm { paths: Seq<Seq<char>>, recursive: bool },
}

impl View for Plan {
    type V = PlanV;

    open spec fn view(&self) -> PlanV {
        match self {
            Plan::Serve => PlanV::Serve,
            Plan::Push { local, target } => PlanV::Push {
                local: local@,
                target: opt_view(*target),
            },
            Plan::Ls { path } => PlanV::Ls { path: path@ },
            Plan::Mv { from, to } => PlanV::Mv { from: from@, to: to@ },
            Plan::Rm { paths, recursive } => PlanV::Rm {
                paths: views(paths@),
                recursive: *recursive,
            },
        }
    }
}

/// What `command` does with its options, or how it should have been called.
pub open spec fn planned(command: Seq<char>, o: OptionsV) -> Result<PlanV, Seq<char>> {
    let args = o.positional;
    if command == "serve"@ {
        Ok(PlanV::Serve)
    } else if command == "push"@ {
        if args.len() == 1 {
            Ok(PlanV::Push { local: args[0], target: None })
        } else if args.len() == 2 {
            Ok(PlanV::Push { local: args[0], target: Some(stripped(args[1], '/')) })
        } else {
            Err("usage: tuneterm push LOCAL [REMOTE]"@)
        }
    } else if command == "ls"@ {
        Ok(
            PlanV::Ls {
                path: if args.len() > 0 {
                    stripped(args[0], '/')
                } else {
                    seq![]
                },
            },
        )
    } else if command == "mv"@ {
        if args.len() == 2 {
            Ok(PlanV::Mv { from: stripped(args[0], '/'), to: stripped(args[1], '/') })
        } else {
            Err("usage: tuneterm mv FROM TO"@)
        }
    } else {
        if args.len() == 0 {
            Err("usage: tuneterm rm [-r] PATH..."@)
        } else {
            Ok(PlanV::Rm { paths: args, recursive: o.recursive })
        }
    }
}

/// Which server is to be talked to, or why there is none.
pub open spec fn server_for(o: OptionsV, configured: RemoteV) -> Result<ServerV, Seq<char>> {
    match server_address(o, configured) {
        None => Err("which server? pass --server, or add one in the player with `a`"@),
        Some(url) => connection(url, configured.token, endpoint_refusal(uri_of(url))),
    }
}

/// What a command does and the server it does it on. Only serving needs none. Without
/// the server a command needs, how it was called does not matter.
pub fn prepared(command: &str, options: &Options, configured: &Remote) -> (r: Result<
    (Plan, Option<Server>),
    String,
>)
    requires
        command_names().contains(command@),
    ensures
        if command@ == "serve"@ {
            r matches Ok((plan, None)) && plan@ == PlanV::Serve
        } else {
            match server_for(options@, configured@) {
                Err(e) => r matches Err(why) && why@ == e,
                Ok(s) => match planned(command@, options@) {
                    Err(e) => r matches Err(why) && why@ == e,
                    Ok(p) => r matches Ok((plan, Some(server))) && plan@ == p && server@ == s,
                },
            }
        },
{
    if text::same(command, "serve") {
        return Ok((Plan::Serve, None));
    }
    let server = match options.server(configured) {
        Ok(server) => server,
        Err(why) => {
            return Err(why);
        },
    };
    match run(command, options) {
        Ok(plan) => Ok((plan, Some(server))),
        Err(why) => Err(why),
    }
}

/// What a command does, its server aside.
pub fn run(command: &str, options: &Options) -> (r: Result<Plan, String>)
    requires
        command_names().contains(command@),
    ensures
        match r {
            Ok(plan) => planned(command@, options@) == Ok::<PlanV, Seq<char>>(plan@),
            Err(why) => planned(command@, options@) == Err::<PlanV, Seq<char>>(why@),
        },
{
    let args = &options.positional;
    let n: usize = args.len();
    let ghost all = views(args@);
    assert(all.len() == n);
    if text::same(command, "serve") {
        Ok(Plan::Serve)
    } else if text::same(command, "push") {
        if n == 1 {
            assert(all[0] == args@[0]@);
            Ok(Plan::Push { local: args[0].clone(), target: None })
        } else if n == 2 {
            assert(all[0] == args@[0]@ && all[1] == args@[1]@);
            Ok(Plan::Push { local: args[0].clone(), target: Some(wire(args[1].as_str())) })
        } else {
            Err("usage: tuneterm push LOCAL [REMOTE]".to_owned())
        }
    } else if text::same(command, "ls") {
        if n > 0 {
            assert(all[0] == args@[0]@);
            Ok(Plan::Ls { path: wire(args[0].as_str()) })
        } else {
            let top = String::new();
            assert(top@ =~= seq![]);
            Ok(Plan::Ls { path: top })
        }
    } else if text::same(command, "mv") {
        if n == 2 {
            assert(all[0] == args@[0]@ && all[1] == args@[1]@);
            Ok(Plan::Mv { from: wire(args[0].as_str()), to: wire(args[1].as_str()) })
        } else {
            Err("usage: tuneterm mv FROM TO".to_owned())
        }
    } else {
        if n == 0 {
            Err("usage: tuneterm rm [-r] PATH...".to_owned())
        } else {
            let mut paths: Vec<String> = Vec::new();
            let mut i: usize = 0;
            while i < n
                invariant
                    i <= n,
                    n == args@.len(),
                    paths@.len() == i,
                    forall|k: int| 0 <= k < i ==> (#[trigger] paths@[k])@ == args@[k]@,
                decreases n - i,
            {
                paths.push(args[i].clone());
                i = i + 1;
            }
            assert(views(paths@) =~= all);
            Ok(Plan::Rm { paths, recursive: options.recursive })
        }
    }
}

/// A path that may be removed: anything but the whole library, which is not something
/// to allow by accident.
pub fn removable(path: &str) -> (r: Result<String, String>)
    ensures
        match r {
            Ok(p) => p@ == stripped(path@, '/') && p@.len() > 0,
            Err(why) => stripped(path@, '/').len() == 0 && why@
                == "refusing to remove the root of the library"@,
        },
{
    let p = wire(path);
    if p.as_str().is_empty() {
        Err("refusing to remove the root of the library".to_owned())
    } else {
        Ok(p)
    }
}

/// Where a push goes. Like `cp`: a target that is an existing folder receives the
/// upload inside it, any other target names the destination itself, and without one
/// the file or folder keeps its own name at the top of the library.
pub fn push_base(name: &str, target: &Option<String>, there: Option<Stat>) -> (r: String)
    ensures
        r@ == (match filled(opt_view(*target)) {
            None => name@,
            Some(t) => if there matches Some(s) && s.is_dir {
                joined_path(t, name@)
            } else {
                t
            },
        }),
{
    match target {
        Some(t) => {
            if t.as_str().is_empty() {
                return name.to_owned();
            }
            if let Some(s) = there {
                if s.is_dir {
                    return remote::join(t.as_str(), name);
                }
            }
            t.clone()
        },
        None => name.to_owned(),
    }
}

// ---------------------------------------------------------------------------
// What the commands print
// ---------------------------------------------------------------------------

/// An entry the way `ls` shows it: its size in a column, or a slash behind a folder.
pub open spec fn entry_line(name: Seq<char>, is_dir: bool, size: nat) -> Seq<char> {
    if is_dir {
        right_aligned(seq![], 10) + "  "@ + name + "/"@
    } else {
        right_aligned(human_size(size), 10) + "  "@ + name
    }
}

/// A line of `ls`.
pub fn ls_line(entry: &Entry) -> (r: String)
    ensures
        r@ == entry_line(entry.name@, entry.is_dir, entry.size as nat),
{
    if entry.is_dir {
        let column = text::align_right("", 10);
        proof {
            reveal_strlit("");
            assert(""@ =~= seq![]);
        }
        text::cat4(column.as_str(), "  ", entry.name.as_str(), "/")
    } else {
        let size = remote::human(entry.size);
        let column = text::align_right(size.as_str(), 10);
        text::cat3(column.as_str(), "  ", entry.name.as_str())
    }
}

/// What `mv` says.
pub fn moved_line(from: &str, to: &str) -> (r: String)
    ensures
        r@ == "moved /"@ + from@ + " -> /"@ + to@,
{
    text::cat4("moved /", from, " -> /", to)
}

/// What `rm` says.
pub fn removed_line(path: &str) -> (r: String)
    ensures
        r@ == "removed /"@ + path@,
{
    text::cat2("removed /", path)
}

/// What `push` says of a file that went.
pub open spec fn sent_line(index: nat, total: nat, sent: SentV) -> Seq<char> {
    "["@ + decimal(index) + "/"@ + decimal(total) + "] "@ + (if sent.skipped {
        "same"@
    } else {
        "sent"@
    }) + "   /"@ + sent.remote + "  "@ + human_size(sent.size as nat)
}

/// What `push` says of a file that went.
pub fn push_line(index: usize, total: usize, sent: &Sent) -> (r: String)
    ensures
        r@ == sent_line(index as nat, total as nat, sent@),
{
    let at = text::print(index as u64);
    let all = text::print(total as u64);
    let how = if sent.skipped {
        "same"
    } else {
        "sent"
    };
    let size = remote::human(sent.size);
    let mut r = text::cat5("[", at.as_str(), "/", all.as_str(), "] ");
    text::push_str(&mut r, how);
    text::push_str(&mut r, "   /");
    text::push_str(&mut r, sent.remote.as_str());
    text::push_str(&mut r, "  ");
    text::push_str(&mut r, size.as_str());
    r
}

/// What `push` says in the end: how much was sent, `rate` bytes a second, and how many
/// files were there already.
pub fn push_summary(sent: usize, skipped: usize, bytes: u64, rate: u64) -> (r: String)
    ensures
        r@ == (if sent == 0 {
            "nothing sent, "@ + decimal(skipped as nat) + " already there"@
        } else {
            decimal(sent as nat) + " sent ("@ + human_size(bytes as nat) + ", "@ + human_size(
                rate as nat,
            ) + "/s), "@ + decimal(skipped as nat) + " already there"@
        }),
{
    let there = text::print(skipped as u64);
    if sent == 0 {
        return text::cat3("nothing sent, ", there.as_str(), " already there");
    }
    let n = text::print(sent as u64);
    let size = remote::human(bytes);
    let speed = remote::human(rate);
    let mut r = text::cat5(n.as_str(), " sent (", size.as_str(), ", ", speed.as_str());
    text::push_str(&mut r, "/s), ");
    text::push_str(&mut r, there.as_str());
    text::push_str(&mut r, " already there");
    r
}

// ---------------------------------------------------------------------------
// What the arguments come to
// ---------------------------------------------------------------------------

/// Arguments are taken in one after the other: what some of them come to is where the
/// rest go on from, and a mistake in them is not made good by the rest.
pub proof fn law_arguments_are_taken_in_turn(o: OptionsV, a: Seq<Seq<char>>, b: Seq<Seq<char>>)
    ensures
        match o.with(a) {
            Ok(p) => o.with(a + b) == p.with(b),
            Err(why) => a.len() > 0 && a.last() != "--server"@ && a.last() != "--listen"@
                ==> o.with(a + b) == Err::<OptionsV, Seq<char>>(why),
        },
    decreases a.len(),
{
    let all = a + b;
    if a.len() == 0 {
        assert(all =~= b);
    } else {
        assert(all[0] == a[0]);
        if a[0] == "--server"@ || a[0] == "--listen"@ {
            if a.len() >= 2 {
                assert(all[1] == a[1]);
                assert(all.skip(2) =~= a.skip(2) + b);
                let p = if a[0] == "--server"@ {
                    OptionsV { server: Some(a[1]), ..o }
                } else {
                    OptionsV { listen: Some(a[1]), ..o }
                };
                law_arguments_are_taken_in_turn(p, a.skip(2), b);
                if a.len() > 2 {
                    assert(a.skip(2).last() == a.last());
                } else {
                    assert(p.with(a.skip(2)) == Ok::<OptionsV, Seq<char>>(p));
                }
            } else {
                assert(a.last() == a[0]);
            }
        } else {
            assert(all.skip(1) =~= a.skip(1) + b);
            let p = if a[0] == "-r"@ || a[0] == "--recursive"@ {
                OptionsV { recursive: true, ..o }
            } else {
                OptionsV { positional: o.positional.push(a[0]), ..o }
            };
            law_arguments_are_taken_in_turn(p, a.skip(1), b);
            if a.len() > 1 {
                assert(a.skip(1).last() == a.last());
            } else {
                assert(p.with(a.skip(1)) == Ok::<OptionsV, Seq<char>>(p));
            }
        }
    }
}

/// Each option sets its own thing, and what is no option is taken as it comes. An option
/// without its value, and one that is not known, are mistakes.
pub proof fn law_options_set_their_own_thing(o: OptionsV, v: Seq<char>)
    ensures
        o.with(seq!["--server"@, v]) == Ok::<OptionsV, Seq<char>>(
            OptionsV { server: Some(v), ..o },
        ),
        o.with(seq!["--listen"@, v]) == Ok::<OptionsV, Seq<char>>(
            OptionsV { listen: Some(v), ..o },
        ),
        o.with(seq!["-r"@]) == Ok::<OptionsV, Seq<char>>(OptionsV { recursive: true, ..o }),
        o.with(seq!["--recursive"@]) == o.with(seq!["-r"@]),
        v.len() == 0 || v[0] != '-' || v.len() == 1 ==> o.with(seq![v]) == Ok::<
            OptionsV,
            Seq<char>,
        >(OptionsV { positional: o.positional.push(v), ..o }),
        v.len() > 1 && v[0] == '-' && v != "-r"@ && v != "--recursive"@ && v != "--server"@ && v
            != "--listen"@ ==> o.with(seq![v]) is Err,
        o.with(seq!["--server"@]) is Err,
        o.with(seq!["--listen"@]) is Err,
{
    reveal_strlit("--server");
    reveal_strlit("--listen");
    reveal_strlit("-r");
    reveal_strlit("--recursive");
    assert("--server"@[2] != "--listen"@[2]);
    let a = seq!["--server"@, v];
    let b = seq!["--listen"@, v];
    let c = seq!["-r"@];
    let d = seq!["--recursive"@];
    let e = seq![v];
    assert(a.skip(2) =~= seq![] && b.skip(2) =~= seq![]);
    assert(c.skip(1) =~= seq![] && d.skip(1) =~= seq![] && e.skip(1) =~= seq![]);
    reveal_with_fuel(OptionsV::with, 2);
    assert(c[0] == "-r"@ && d[0] == "--recursive"@ && e[0] == v);
    assert(c[0].len() == 2 && d[0].len() == 11);
}

/// A server that is given is the one that is used, and one that is only configured is
/// used when none is given; either may leave out what every address starts with.
pub proof fn law_the_given_server_is_used(o: OptionsV, configured: RemoteV, s: Seq<char>)
    requires
        s.len() > 0,
    ensures
        o.server == Some(s) || (o.server is None && configured.server == Some(s)) ==> {
            &&& has_scheme(s) ==> server_address(o, configured) == Some(s)
            &&& !has_scheme(s) ==> server_address(o, configured) == Some("tuneterm://"@ + s)
        },
        o.server is None && configured.server is None ==> server_address(o, configured) is None
            && server_for(o, configured) is Err,
{
}

/// What each command does with what it is given: where things come from and where they
/// go, without the slashes around them; and called with too little or too much, it says
/// so.
pub proof fn law_commands_do_as_they_are_told(o: OptionsV, a: Seq<char>, b: Seq<char>)
    requires
        text::is_stripped(a, '/'),
        text::is_stripped(b, '/'),
    ensures
        ({
            let none = OptionsV { positional: seq![], ..o };
            let one = OptionsV { positional: seq![a], ..o };
            let rooted = OptionsV { positional: seq![seq!['/'] + a], ..o };
            let two = OptionsV { positional: seq![a, b], ..o };
            let three = OptionsV { positional: seq![a, b, a], ..o };
            &&& planned("push"@, one) == Ok::<PlanV, Seq<char>>(
                PlanV::Push { local: a, target: None },
            )
            &&& planned("push"@, two) == Ok::<PlanV, Seq<char>>(
                PlanV::Push { local: a, target: Some(b) },
            )
            &&& planned("push"@, none) is Err && planned("push"@, three) is Err
            &&& planned("ls"@, none) == Ok::<PlanV, Seq<char>>(PlanV::Ls { path: seq![] })
            &&& planned("ls"@, one) == Ok::<PlanV, Seq<char>>(PlanV::Ls { path: a })
            &&& planned("ls"@, rooted) == planned("ls"@, one)
            &&& planned("mv"@, two) == Ok::<PlanV, Seq<char>>(PlanV::Mv { from: a, to: b })
            &&& planned("mv"@, one) is Err && planned("mv"@, none) is Err && planned(
                "mv"@,
                three,
            ) is Err
            &&& planned("rm"@, none) is Err
            &&& planned("rm"@, two) == Ok::<PlanV, Seq<char>>(
                PlanV::Rm { paths: seq![a, b], recursive: o.recursive },
            )
            &&& planned("serve"@, o) == Ok::<PlanV, Seq<char>>(PlanV::Serve)
        }),
{
    reveal_strlit("serve");
    reveal_strlit("push");
    reveal_strlit("ls");
    reveal_strlit("mv");
    reveal_strlit("rm");
    assert("ls"@[0] == 'l' && "mv"@[0] == 'm' && "rm"@[0] == 'r');
    assert("mv"@ != "ls"@ && "rm"@ != "ls"@ && "rm"@ != "mv"@);
    assert("serve"@.len() == 5 && "push"@.len() == 4 && "ls"@.len() == 2);
    assert("push"@ != "serve"@);
    text::lemma_stripped(a, '/');
    text::lemma_stripped(b, '/');
    let more = seq!['/'] + a;
    assert(more[0] == '/');
    assert(more.skip(1) =~= a);
    assert(text::stripped_start(more, '/') == text::stripped_start(a, '/'));
}

/// A line of `ls` keeps its columns: what is no wider than the column ends where it ends,
/// and a folder is told by the slash behind its name.
pub proof fn law_listed_sizes_line_up(name: Seq<char>, size: nat)
    requires
        human_size(size).len() <= 10,
    ensures
        entry_line(name, false, size).len() == 12 + name.len(),
        entry_line(name, true, size).len() == 13 + name.len(),
        entry_line(name, false, size).skip(12) == name,
        entry_line(name, true, size).skip(12) == name + "/"@,
        entry_line(name, false, size).subrange((10 - human_size(size).len()) as int, 10)
            == human_size(size),
{
    reveal_strlit("  ");
    reveal_strlit("/");
    assert(entry_line(name, false, size).skip(12) =~= name);
    assert(entry_line(name, true, size).skip(12) =~= name + "/"@);
    assert(entry_line(name, false, size).subrange((10 - human_size(size).len()) as int, 10)
        =~= human_size(size));
}

} // verus!
