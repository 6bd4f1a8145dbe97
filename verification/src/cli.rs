//! The command line: a method (`SEND`, `RECEIVE`, ...) followed by options.
//!
//! Options are read left to right, each one changing the settings on its
//! own; an option that is not recognised asks for the usage text.
use vstd::prelude::*;

use crate::connection::{default_connection, Connection, ConnectionModel};
use crate::decimal::{parse_u32, parse_u32_chars};
use crate::send_map::SendMap;
use crate::text::{
    lemma_differs_at, lemma_find_char_shift, lemma_prefix_kept, lemma_starts_with_self, shift,
    chars_of, eq_str, find, find_char, split, split_chars, starts_with, starts_with_str,
    string_of, subvec, to_ascii_uppercase, trim, trim_chars, ascii_upper,
};

verus! {

/// How the reading of the command line ended.
#[derive(Clone, Copy, Debug, PartialEq, Eq, Structural)]
pub enum ArgsOutcome {
    /// Every option was read.
    Parsed,
    /// The command line was empty or held an unknown option: the usage text
    /// is to be shown and the program ends.
    Help,
}

/// What an option is, by its spelling.
#[derive(Clone, Copy, Debug, PartialEq, Eq, Structural)]
pub enum OptionKind {
    /// `-d`, `-D`, `--debug`, `--Debug`
    Debug,
    /// `--src=<path>`, `-s=<path>`
    SourceDir,
    /// `--config=<path>`, `-conf=<path>`
    Config,
    /// `--conn=(url,ip,port,hostname)`, `-c=(...)`
    Connection,
    /// `--send=recipient=(file1,file2,...)`
    Send,
    /// `--receive=(sender1,sender2,...)`
    Receive,
    /// anything else
    Unknown,
}

/// The settings that the command line sets.
#[derive(Debug, Clone)]
pub struct CLI {
    pub dbg: bool,
    pub method: String,
    pub send: SendMap,
    pub receive: Vec<String>,
    pub connection: Connection,
    pub srcdir: Option<String>,
    pub config: Option<String>,
}

/// The settings of a [`CLI`] as plain values.
pub struct CliModel {
    pub dbg: bool,
    pub method: Seq<char>,
    pub send: Map<Seq<char>, Seq<Seq<char>>>,
    pub receive: Seq<Seq<char>>,
    pub connection: ConnectionModel,
    pub srcdir: Option<Seq<char>>,
    pub config: Option<Seq<char>>,
}

pub open spec fn opt_view(o: Option<String>) -> Option<Seq<char>> {
    match o {
        Some(s) => Some(s@),
        None => None,
    }
}

impl View for CLI {
    type V = CliModel;

    open spec fn view(&self) -> CliModel {
        CliModel {
            dbg: self.dbg,
            method: self.method@,
            send: self.send@,
            receive: self.receive.deep_view(),
            connection: self.connection@,
            srcdir: opt_view(self.srcdir),
            config: opt_view(self.config),
        }
    }
}

/// The settings before any option is read.
pub open spec fn initial_settings() -> CliModel {
    CliModel {
        dbg: false,
        method: "RECEIVE"@,
        send: Map::empty(),
        receive: Seq::empty(),
        connection: default_connection(),
        srcdir: None,
        config: None,
    }
}

/// The kind of option `a` is; the spellings are tried in this order.
pub open spec fn option_kind(a: Seq<char>) -> OptionKind {
    if a == "-d"@ || a == "-D"@ || a == "--debug"@ || a == "--Debug"@ {
        OptionKind::Debug
    } else if starts_with(a, "--src="@) || starts_with(a, "-s="@) {
        OptionKind::SourceDir
    } else if starts_with(a, "--config="@) || starts_with(a, "-conf="@) {
        OptionKind::Config
    } else if starts_with(a, "--conn="@) || starts_with(a, "-c="@) {
        OptionKind::Connection
    } else if starts_with(a, "--send"@) {
        OptionKind::Send
    } else if starts_with(a, "--receive"@) {
        OptionKind::Receive
    } else {
        OptionKind::Unknown
    }
}

/// The text between the first `'('` and the first `')'` of `a`, as a range,
/// when the first `'('` comes before the first `')'`.
pub open spec fn paren_span(a: Seq<char>) -> Option<(int, int)> {
    match (find(a, seq!['(']), find(a, seq![')'])) {
        (Some(p), Some(q)) => if p + 1 <= q {
            Some((p + 1, q))
        } else {
            None
        },
        _ => None,
    }
}

/// The comma-separated items between the parentheses of `a`, each trimmed.
pub open spec fn list_items(a: Seq<char>) -> Seq<Seq<char>> {
    let span = paren_span(a).unwrap();
    split(a.subrange(span.0, span.1), seq![',']).map_values(|f: Seq<char>| trim(f))
}

/// The recipient of a send option `--send=<recipient>=(...)`: the text
/// between its first `'='` and its first `'('`, without the `'='` that ends
/// the recipient's name when there is one.
pub open spec fn send_recipient(a: Seq<char>) -> Seq<char> {
    let r = a.subrange(find(a, seq!['=']).unwrap() + 1, find(a, seq!['(']).unwrap());
    if r.len() > 0 && r.last() == '=' {
        r.drop_last()
    } else {
        r
    }
}

/// The value of a `--src=`/`-s=` or `--config=`/`-conf=` option: the text
/// after the option's `=`.
pub open spec fn option_value(a: Seq<char>) -> Seq<char> {
    if starts_with(a, "--src="@) {
        a.skip("--src="@.len() as int)
    } else if starts_with(a, "-s="@) {
        a.skip("-s="@.len() as int)
    } else if starts_with(a, "--config="@) {
        a.skip("--config="@.len() as int)
    } else {
        a.skip("-conf="@.len() as int)
    }
}

/// An option can be read: a connection option has its parentheses, at least
/// four items and a port that is a `u32`; a send option has an `'='` before
/// its `'('` and its parentheses; a receive option has its parentheses.
pub open spec fn option_well_formed(a: Seq<char>) -> bool {
    match option_kind(a) {
        OptionKind::Connection => paren_span(a) is Some && list_items(a).len() >= 4 && parse_u32(
            list_items(a)[2],
        ) is Some,
        OptionKind::Send => paren_span(a) is Some && (find(a, seq!['=']) matches Some(e) && e + 1
            <= find(a, seq!['(']).unwrap()),
        OptionKind::Receive => paren_span(a) is Some,
        _ => true,
    }
}

/// The settings after reading option `a`.
pub open spec fn apply_option(st: CliModel, a: Seq<char>) -> CliModel {
    match option_kind(a) {
        OptionKind::Debug => CliModel { dbg: true, ..st },
        OptionKind::SourceDir => CliModel { srcdir: Some(option_value(a)), ..st },
        OptionKind::Config => CliModel { config: Some(option_value(a)), ..st },
        OptionKind::Connection => {
            let f = list_items(a);
            CliModel {
                connection: ConnectionModel {
                    url: f[0],
                    ip: f[1],
                    port: parse_u32(f[2]).unwrap(),
                    hostname: f[3],
                },
                ..st
            }
        },
        OptionKind::Send => CliModel {
            send: st.send.insert(send_recipient(a), list_items(a)),
            ..st
        },
        OptionKind::Receive => CliModel { receive: st.receive + list_items(a), ..st },
        OptionKind::Unknown => st,
    }
}

/// Reads the options `opts` from the settings `st`; reading stops at the
/// first unknown option, which asks for the usage text.
pub open spec fn apply_options(st: CliModel, opts: Seq<Seq<char>>) -> (ArgsOutcome, CliModel)
    decreases opts.len(),
{
    if opts.len() == 0 {
        (ArgsOutcome::Parsed, st)
    } else if option_kind(opts[0]) is Unknown {
        (ArgsOutcome::Help, st)
    } else {
        apply_options(apply_option(st, opts[0]), opts.drop_first())
    }
}

/// Every option that is read (all up to the first unknown one) is well formed.
pub open spec fn options_well_formed(opts: Seq<Seq<char>>) -> bool
    decreases opts.len(),
{
    opts.len() == 0 || option_kind(opts[0]) is Unknown || (option_well_formed(opts[0])
        && options_well_formed(opts.drop_first()))
}

/// The command line (without the program name) can be read.
pub open spec fn args_well_formed(args: Seq<Seq<char>>) -> bool {
    args.len() == 0 || options_well_formed(args.drop_first())
}

/// Reading a whole command line: an empty one asks for the usage text; else
/// the first word, in ASCII upper case, is the method and the rest are options.
pub open spec fn parse_args(st: CliModel, args: Seq<Seq<char>>) -> (ArgsOutcome, CliModel) {
    if args.len() == 0 {
        (ArgsOutcome::Help, st)
    } else {
        apply_options(CliModel { method: ascii_upper(args[0]), ..st }, args.drop_first())
    }
}

/// The kind of option `a` is (executable).
pub fn classify_option(a: &Vec<char>) -> (k: OptionKind)
    ensures
        k == option_kind(a@),
{
    if eq_str(a, "-d") || eq_str(a, "-D") || eq_str(a, "--debug") || eq_str(a, "--Debug") {
        OptionKind::Debug
    } else if starts_with_str(a, "--src=") || starts_with_str(a, "-s=") {
        OptionKind::SourceDir
    } else if starts_with_str(a, "--config=") || starts_with_str(a, "-conf=") {
        OptionKind::Config
    } else if starts_with_str(a, "--conn=") || starts_with_str(a, "-c=") {
        OptionKind::Connection
    } else if starts_with_str(a, "--send") {
        OptionKind::Send
    } else if starts_with_str(a, "--receive") {
        OptionKind::Receive
    } else {
        OptionKind::Unknown
    }
}

/// The range of [`paren_span`] (executable).
fn paren_span_of(a: &Vec<char>) -> (r: Option<(usize, usize)>)
    ensures
        r matches Some(s) ==> paren_span(a@) == Some((s.0 as int, s.1 as int)),
        r is None ==> paren_span(a@) is None,
{
    match (find_char(a, '('), find_char(a, ')')) {
        (Some(p), Some(q)) => {
            if p < q {
                Some((p + 1, q))
            } else {
                None
            }
        },
        _ => None,
    }
}

/// The items of [`list_items`] (executable), when the parentheses are there.
fn list_items_of(a: &Vec<char>) -> (r: Option<Vec<Vec<char>>>)
    ensures
        r is None <==> paren_span(a@) is None,
        r matches Some(v) ==> v.deep_view() == list_items(a@),
{
    match paren_span_of(a) {
        None => None,
        Some(span) => {
            proof {
                crate::text::lemma_find_from(a@, seq![')'], 0);
            }
            let inner = subvec(a, span.0, span.1);
            let mut sep: Vec<char> = Vec::new();
            sep.push(',');
            assert(sep@ =~= seq![',']);
            let pieces = split_chars(&inner, &sep);
            let ghost target = split(inner@, seq![',']).map_values(|f: Seq<char>| trim(f));
            let mut out: Vec<Vec<char>> = Vec::new();
            let mut i: usize = 0;
            while i < pieces.len()
                invariant
                    i <= pieces.len(),
                    pieces.deep_view() == split(inner@, seq![',']),
                    target == split(inner@, seq![',']).map_values(|f: Seq<char>| trim(f)),
                    out.deep_view() =~= target.take(i as int),
                decreases pieces.len() - i,
            {
                let t = trim_chars(&pieces[i]);
                assert(pieces[i as int].deep_view() =~= pieces[i as int]@);
                assert(t.deep_view() =~= t@);
                let ghost before = out.deep_view();
                out.push(t);
                assert(out.deep_view() =~= before.push(t@));
                i += 1;
                assert(out.deep_view() =~= target.take(i as int));
            }
            assert(target.take(i as int) =~= target);
            Some(out)
        },
    }
}

/// The strings made of the character vectors of `v`.
fn strings_of(v: &Vec<Vec<char>>) -> (r: Vec<String>)
    ensures
        r.deep_view() == v.deep_view(),
{
    let mut r: Vec<String> = Vec::new();
    let mut i: usize = 0;
    while i < v.len()
        invariant
            i <= v.len(),
            r.deep_view() =~= v.deep_view().take(i as int),
        decreases v.len() - i,
    {
        let s = string_of(&v[i]);
        assert(v[i as int].deep_view() =~= v[i as int]@);
        let ghost before = r.deep_view();
        r.push(s);
        assert(r.deep_view() =~= before.push(s@));
        i += 1;
    }
    r
}

/// Option `a` is well formed (executable).
pub fn option_is_well_formed(a: &Vec<char>) -> (b: bool)
    ensures
        b == option_well_formed(a@),
{
    match classify_option(a) {
        OptionKind::Connection => match list_items_of(a) {
            None => false,
            Some(items) => {
                if items.len() < 4 {
                    false
                } else {
                    assert(items[2].deep_view() =~= items[2]@);
                    parse_u32_chars(&items[2]).is_some()
                }
            },
        },
        OptionKind::Send => match paren_span_of(a) {
            None => false,
            Some(_) => match (find_char(a, '='), find_char(a, '(')) {
                (Some(e), Some(p)) => e < p,
                _ => false,
            },
        },
        OptionKind::Receive => paren_span_of(a).is_some(),
        _ => true,
    }
}

/// Why an option cannot be read.
#[derive(Clone, Copy, Debug, PartialEq, Eq, Structural)]
pub enum OptionFault {
    /// A `'('` or a `')'` is missing.
    MissingParen,
    /// A send option has no `'='`.
    MissingEquals,
    /// A send option's first `'='` comes after its first `'('`.
    NameAfterParen,
    /// The first `')'` does not come after the first `'('`.
    ParenOrder,
    /// A connection option lists fewer than four items.
    MissingItem,
    /// A connection option's third item is not a `u32`.
    BadPort,
}

/// The first thing that stops option `a` from being read, in the order the
/// option's parts are read: the parentheses, then (for a send option) the
/// recipient, then the list, then (for a connection option) the items in
/// order, the port being read before the fourth item.
pub open spec fn option_fault(a: Seq<char>) -> Option<OptionFault> {
    let open_at = find(a, seq!['(']);
    let close_at = find(a, seq![')']);
    match option_kind(a) {
        OptionKind::Connection => if open_at is None || close_at is None {
            Some(OptionFault::MissingParen)
        } else if paren_span(a) is None {
            Some(OptionFault::ParenOrder)
        } else if list_items(a).len() < 3 {
            Some(OptionFault::MissingItem)
        } else if parse_u32(list_items(a)[2]) is None {
            Some(OptionFault::BadPort)
        } else if list_items(a).len() < 4 {
            Some(OptionFault::MissingItem)
        } else {
            None
        },
        OptionKind::Send => if open_at is None || close_at is None {
            Some(OptionFault::MissingParen)
        } else if find(a, seq!['=']) is None {
            Some(OptionFault::MissingEquals)
        } else if find(a, seq!['=']).unwrap() + 1 > open_at.unwrap() {
            Some(OptionFault::NameAfterParen)
        } else if paren_span(a) is None {
            Some(OptionFault::ParenOrder)
        } else {
            None
        },
        OptionKind::Receive => if open_at is None || close_at is None {
            Some(OptionFault::MissingParen)
        } else if paren_span(a) is None {
            Some(OptionFault::ParenOrder)
        } else {
            None
        },
        _ => None,
    }
}

/// The fault of the first option among `opts` that is read and cannot be.
pub open spec fn options_fault(opts: Seq<Seq<char>>) -> Option<OptionFault>
    decreases opts.len(),
{
    if opts.len() == 0 || option_kind(opts[0]) is Unknown {
        None
    } else if option_fault(opts[0]) is Some {
        option_fault(opts[0])
    } else {
        options_fault(opts.drop_first())
    }
}

/// The fault of the first option of a command line that is read and cannot be.
pub open spec fn args_fault(args: Seq<Seq<char>>) -> Option<OptionFault> {
    if args.len() == 0 {
        None
    } else {
        options_fault(args.drop_first())
    }
}

/// An option has no fault exactly when it is well formed.
pub proof fn lemma_option_fault(a: Seq<char>)
    ensures
        option_fault(a) is None <==> option_well_formed(a),
{
}

/// A command line has no fault exactly when it can be read.
pub proof fn lemma_args_fault(args: Seq<Seq<char>>)
    ensures
        args_fault(args) is None <==> args_well_formed(args),
{
    if args.len() > 0 {
        lemma_options_fault(args.drop_first());
    }
}

proof fn lemma_options_fault(opts: Seq<Seq<char>>)
    ensures
        options_fault(opts) is None <==> options_well_formed(opts),
    decreases opts.len(),
{
    if opts.len() > 0 {
        lemma_option_fault(opts[0]);
        lemma_options_fault(opts.drop_first());
    }
}

/// The fault of option `a` (executable).
pub fn option_fault_of(a: &Vec<char>) -> (r: Option<OptionFault>)
    ensures
        r == option_fault(a@),
{
    let kind = classify_option(a);
    match kind {
        OptionKind::Connection | OptionKind::Send | OptionKind::Receive => {},
        _ => return None,
    }
    let (p, q) = match (find_char(a, '('), find_char(a, ')')) {
        (Some(p), Some(q)) => (p, q),
        _ => return Some(OptionFault::MissingParen),
    };
    if kind == OptionKind::Send {
        match find_char(a, '=') {
            None => return Some(OptionFault::MissingEquals),
            Some(e) => {
                if e >= p {
                    return Some(OptionFault::NameAfterParen);
                }
            },
        }
    }
    if p >= q {
        return Some(OptionFault::ParenOrder);
    }
    if kind != OptionKind::Connection {
        return None;
    }
    let items = list_items_of(a).unwrap();
    if items.len() < 3 {
        return Some(OptionFault::MissingItem);
    }
    assert(items[2].deep_view() =~= items[2]@);
    if parse_u32_chars(&items[2]).is_none() {
        return Some(OptionFault::BadPort);
    }
    if items.len() < 4 {
        return Some(OptionFault::MissingItem);
    }
    None
}

/// The fault of the first option of the command line `args` (without the
/// program name) that is read and cannot be; `None` exactly when the
/// command line can be read.
pub fn command_line_fault(args: &Vec<String>) -> (r: Option<OptionFault>)
    ensures
        r == args_fault(args.deep_view()),
        r is None <==> args_well_formed(args.deep_view()),
{
    proof {
        lemma_args_fault(args.deep_view());
    }
    if args.len() == 0 {
        return None;
    }
    let ghost all = args.deep_view();
    let mut i: usize = 1;
    assert(all.drop_first() =~= all.skip(1));
    while i < args.len()
        invariant
            1 <= i <= args.len(),
            all == args.deep_view(),
            args_fault(all) == options_fault(all.skip(i as int)),
            args_fault(all) is None <==> args_well_formed(all),
        decreases args.len() - i,
    {
        let a = chars_of(args[i].as_str());
        assert(all.skip(i as int)[0] == a@);
        assert(all.skip(i as int).drop_first() =~= all.skip(i + 1));
        if classify_option(&a) == OptionKind::Unknown {
            return None;
        }
        let f = option_fault_of(&a);
        if f.is_some() {
            return f;
        }
        i += 1;
    }
    assert(all.skip(i as int).len() == 0);
    None
}

/// The command line `args` (without the program name) can be read without
/// fault (executable test of [`args_well_formed`]).
pub fn arguments_well_formed(args: &Vec<String>) -> (b: bool)
    ensures
        b == args_well_formed(args.deep_view()),
{
    if args.len() == 0 {
        return true;
    }
    let ghost all = args.deep_view();
    let mut i: usize = 1;
    assert(all.drop_first() =~= all.skip(1));
    while i < args.len()
        invariant
            1 <= i <= args.len(),
            all == args.deep_view(),
            args_well_formed(all) == options_well_formed(all.skip(i as int)),
        decreases args.len() - i,
    {
        let a = chars_of(args[i].as_str());
        assert(all.skip(i as int)[0] == a@);
        assert(all.skip(i as int).drop_first() =~= all.skip(i + 1));
        if classify_option(&a) == OptionKind::Unknown {
            return true;
        }
        if !option_is_well_formed(&a) {
            return false;
        }
        i += 1;
    }
    assert(all.skip(i as int).len() == 0);
    true
}

/// Options are read one after another: reading `a` followed by `b` is reading
/// `a`, then reading `b` from the settings that `a` left, whenever `a` holds
/// no unknown option.
pub proof fn lemma_options_compose(st: CliModel, a: Seq<Seq<char>>, b: Seq<Seq<char>>)
    requires
        apply_options(st, a).0 == ArgsOutcome::Parsed,
    ensures
        apply_options(st, a + b) == apply_options(apply_options(st, a).1, b),
    decreases a.len(),
{
    if a.len() == 0 {
        assert(a + b =~= b);
    } else {
        assert((a + b)[0] == a[0]);
        assert((a + b).drop_first() =~= a.drop_first() + b);
        lemma_options_compose(apply_option(st, a[0]), a.drop_first(), b);
    }
}

/// An unknown option ends the reading: whatever follows it is not read and
/// the usage text is asked for.
pub proof fn lemma_unknown_option_stops(st: CliModel, u: Seq<char>, rest: Seq<Seq<char>>)
    requires
        option_kind(u) is Unknown,
    ensures
        apply_options(st, seq![u] + rest) == (ArgsOutcome::Help, st),
{
    assert((seq![u] + rest)[0] == u);
}

/// The names listed by the receive options among `opts`, in order.
pub open spec fn received_names(opts: Seq<Seq<char>>) -> Seq<Seq<char>>
    decreases opts.len(),
{
    if opts.len() == 0 {
        Seq::empty()
    } else if option_kind(opts[0]) is Receive {
        list_items(opts[0]) + received_names(opts.drop_first())
    } else {
        received_names(opts.drop_first())
    }
}

/// Some option among `opts` is of kind `k`.
pub open spec fn has_kind(opts: Seq<Seq<char>>, k: OptionKind) -> bool {
    exists|i: int| 0 <= i < opts.len() && option_kind(#[trigger] opts[i]) == k
}

/// Some send option among `opts` names recipient `r`.
pub open spec fn sends_to(opts: Seq<Seq<char>>, r: Seq<char>) -> bool {
    exists|i: int|
        0 <= i < opts.len() && option_kind(#[trigger] opts[i]) is Send && send_recipient(opts[i])
            == r
}

/// What reading the options `opts` leaves of the settings `st`: the method
/// stays; the receive names grow by those of each receive option, in order;
/// debug mode is on when it was or a debug option is given; the source
/// directory, the configuration file and the connection keep their values
/// unless an option sets them; a recipient keeps its paths unless a send
/// option names it, and no recipient appears that no send option names.
pub proof fn lemma_options_frame(st: CliModel, opts: Seq<Seq<char>>)
    requires
        apply_options(st, opts).0 == ArgsOutcome::Parsed,
    ensures
        apply_options(st, opts).1.method == st.method,
        apply_options(st, opts).1.receive == st.receive + received_names(opts),
        apply_options(st, opts).1.dbg == (st.dbg || has_kind(opts, OptionKind::Debug)),
        !has_kind(opts, OptionKind::SourceDir) ==> apply_options(st, opts).1.srcdir == st.srcdir,
        !has_kind(opts, OptionKind::Config) ==> apply_options(st, opts).1.config == st.config,
        !has_kind(opts, OptionKind::Connection) ==> apply_options(st, opts).1.connection
            == st.connection,
        forall|k: Seq<char>|
            #![trigger st.send.dom().contains(k)]
            st.send.dom().contains(k) && !sends_to(opts, k) ==> apply_options(
                st,
                opts,
            ).1.send.dom().contains(k) && apply_options(st, opts).1.send[k] == st.send[k],
        forall|k: Seq<char>|
            #[trigger] apply_options(st, opts).1.send.dom().contains(k) ==> st.send.dom().contains(
                k,
            ) || sends_to(opts, k),
    decreases opts.len(),
{
    if opts.len() == 0 {
        assert(st.receive + Seq::<Seq<char>>::empty() =~= st.receive);
        assert(apply_options(st, opts).1 == st);
        assert forall|k: Seq<char>| #![trigger st.send.dom().contains(k)] st.send.dom().contains(k) && !sends_to(opts, k)
            implies apply_options(st, opts).1.send.dom().contains(k)
            && apply_options(st, opts).1.send[k] == st.send[k] by {}
    } else {
        let a = opts[0];
        let rest = opts.drop_first();
        let st1 = apply_option(st, a);
        lemma_options_frame(st1, rest);
        let r = apply_options(st, opts).1;
        assert(r == apply_options(st1, rest).1);
        assert forall|k: OptionKind| has_kind(opts, k) == (option_kind(a) == k || has_kind(rest, k)) by {
            if has_kind(opts, k) {
                let i = choose|i: int| 0 <= i < opts.len() && option_kind(#[trigger] opts[i]) == k;
                if i > 0 {
                    assert(rest[i - 1] == opts[i]);
                }
            }
            if has_kind(rest, k) {
                let i = choose|i: int| 0 <= i < rest.len() && option_kind(#[trigger] rest[i]) == k;
                assert(opts[i + 1] == rest[i]);
            }
            if option_kind(a) == k {
                assert(opts[0] == a);
            }
        }
        assert forall|k: Seq<char>| sends_to(opts, k) == ((option_kind(a) is Send && send_recipient(a) == k) || sends_to(rest, k)) by {
            if sends_to(opts, k) {
                let i = choose|i: int|
                    0 <= i < opts.len() && option_kind(#[trigger] opts[i]) is Send
                        && send_recipient(opts[i]) == k;
                if i > 0 {
                    assert(rest[i - 1] == opts[i]);
                }
            }
            if sends_to(rest, k) {
                let i = choose|i: int|
                    0 <= i < rest.len() && option_kind(#[trigger] rest[i]) is Send
                        && send_recipient(rest[i]) == k;
                assert(opts[i + 1] == rest[i]);
            }
            if option_kind(a) is Send && send_recipient(a) == k {
                assert(opts[0] == a);
            }
        }
        if option_kind(a) is Receive {
            assert(st1.receive == st.receive + list_items(a));
            assert(st.receive + received_names(opts) =~= st1.receive + received_names(rest));
        } else {
            assert(st1.receive == st.receive);
        }
        assert(has_kind(opts, OptionKind::Debug) == (option_kind(a) == OptionKind::Debug || has_kind(rest, OptionKind::Debug)));
        assert(has_kind(opts, OptionKind::SourceDir) == (option_kind(a) == OptionKind::SourceDir || has_kind(rest, OptionKind::SourceDir)));
        assert(has_kind(opts, OptionKind::Config) == (option_kind(a) == OptionKind::Config || has_kind(rest, OptionKind::Config)));
        assert(has_kind(opts, OptionKind::Connection) == (option_kind(a) == OptionKind::Connection || has_kind(rest, OptionKind::Connection)));
        assert forall|k: Seq<char>|
            #![trigger st.send.dom().contains(k)]
            st.send.dom().contains(k) && !sends_to(opts, k) implies apply_options(st, opts).1.send.dom().contains(k)
                && apply_options(st, opts).1.send[k] == st.send[k] by {
            assert(sends_to(opts, k) == ((option_kind(a) is Send && send_recipient(a) == k) || sends_to(rest, k)));
            assert(st1.send.dom().contains(k) && st1.send[k] == st.send[k]);
            assert(apply_options(st1, rest).1.send.dom().contains(k));
        }
        assert forall|k: Seq<char>| #[trigger] apply_options(st, opts).1.send.dom().contains(k) implies st.send.dom().contains(k)
            || sends_to(opts, k) by {
            assert(sends_to(opts, k) == ((option_kind(a) is Send && send_recipient(a) == k) || sends_to(rest, k)));
        }
    }
}

/// The option `--send=<x>=(<f>)`.
pub open spec fn send_option(x: Seq<char>, f: Seq<char>) -> Seq<char> {
    "--send="@ + x + "=("@ + f + ")"@
}

/// A send option names its recipient as typed: for a name `x` without `'='`,
/// `'('` or `')'` and a file `f` without white space, `','`, `'('` or `')'`,
/// reading `--send=<x>=(<f>)` after the method can be done, and maps `x`
/// itself, character for character, to the list holding `f`, every other
/// setting (but the method) left as it was.
pub proof fn lemma_send_recipient_as_typed(
    st: CliModel,
    method: Seq<char>,
    x: Seq<char>,
    f: Seq<char>,
)
    requires
        forall|i: int| 0 <= i < x.len() ==> #[trigger] x[i] != '=' && x[i] != '(' && x[i] != ')',
        forall|i: int|
            0 <= i < f.len() ==> !crate::text::is_whitespace(#[trigger] f[i]) && f[i] != ','
                && f[i] != '(' && f[i] != ')',
    ensures
        args_well_formed(seq![method, send_option(x, f)]),
        parse_args(st, seq![method, send_option(x, f)]) == (
        ArgsOutcome::Parsed,
        CliModel { method: ascii_upper(method), send: st.send.insert(x, seq![f]), ..st },
        ),
{
    reveal_strlit("--send=");
    reveal_strlit("=(");
    reveal_strlit(")");
    let a = send_option(x, f);
    let xl = x.len() as int;
    let fl = f.len() as int;
    assert(a.len() == 10 + xl + fl);
    assert forall|i: int| 0 <= i < xl implies a[7 + i] == x[i] by {}
    assert forall|i: int| 0 <= i < fl implies a[9 + xl + i] == f[i] by {}
    assert(a[6] == '=' && a[7 + xl] == '=' && a[8 + xl] == '(' && a[9 + xl + fl] == ')');
    // The kind of the option.
    reveal_strlit("--send");
    assert(a.subrange(0, 6) =~= "--send"@);
    lemma_send_kind(a);
    // Its '=', '(' and ')'.
    assert forall|k: int| 0 <= k < 6 implies !crate::text::matches_at(a, seq!['='], k) by {
        crate::text::lemma_matches_char(a, '=', k);
    }
    crate::text::lemma_matches_char(a, '=', 6);
    crate::text::lemma_find_first(a, seq!['='], 6);
    assert forall|k: int| 0 <= k < 8 + xl implies !crate::text::matches_at(a, seq!['('], k) by {
        crate::text::lemma_matches_char(a, '(', k);
        if 7 <= k < 7 + xl {
            assert(a[k] == x[k - 7]);
        }
    }
    crate::text::lemma_matches_char(a, '(', 8 + xl);
    crate::text::lemma_find_first(a, seq!['('], 8 + xl);
    assert forall|k: int| 0 <= k < 9 + xl + fl implies !crate::text::matches_at(a, seq![')'], k) by {
        crate::text::lemma_matches_char(a, ')', k);
        if 7 <= k < 7 + xl {
            assert(a[k] == x[k - 7]);
        }
        if 9 + xl <= k < 9 + xl + fl {
            assert(a[k] == f[k - 9 - xl]);
        }
    }
    crate::text::lemma_matches_char(a, ')', 9 + xl + fl);
    crate::text::lemma_find_first(a, seq![')'], 9 + xl + fl);
    assert(paren_span(a) == Some((9 + xl, 9 + xl + fl)));
    // The list holds `f` alone.
    assert(a.subrange(9 + xl, 9 + xl + fl) =~= f);
    assert forall|k: int| 0 <= k implies !crate::text::matches_at(f, seq![','], k) by {
        crate::text::lemma_matches_char(f, ',', k);
    }
    crate::text::lemma_split_last(f, seq![','], 0, 0);
    assert(f.subrange(0, fl) =~= f);
    crate::text::lemma_trim_same(f);
    assert(list_items(a) =~= seq![f]);
    // The recipient.
    assert(a.subrange(7, 8 + xl) =~= x.push('='));
    assert(x.push('=').drop_last() =~= x);
    assert(send_recipient(a) == x);
    assert(option_well_formed(a));
    let args = seq![method, a];
    assert(args.drop_first() =~= seq![a]);
    assert(seq![a].drop_first() =~= Seq::<Seq<char>>::empty());
    assert(options_well_formed(Seq::<Seq<char>>::empty()));
    assert(seq![a][0] == a);
    assert(options_well_formed(seq![a]));
    let st1 = CliModel { method: ascii_upper(method), ..st };
    assert(apply_options(st1, seq![a]) == apply_options(apply_option(st1, a), Seq::empty()));
}

proof fn lemma_send_kind(a: Seq<char>)
    requires
        a.len() >= 10,
        a.subrange(0, 6) == "--send"@,
        a[6] == '=',
    ensures
        option_kind(a) == OptionKind::Send,
{
    reveal_strlit("--send");
    reveal_strlit("-d");
    reveal_strlit("-D");
    reveal_strlit("--debug");
    reveal_strlit("--Debug");
    reveal_strlit("--src=");
    reveal_strlit("-s=");
    reveal_strlit("--config=");
    reveal_strlit("-conf=");
    reveal_strlit("--conn=");
    reveal_strlit("-c=");
    assert(a.subrange(0, 6)[1] == a[1] && a.subrange(0, 6)[2] == a[2] && a.subrange(0, 6)[3]
        == a[3]);
    assert(a[1] == '-' && a[2] == 's' && a[3] == 'e');
    assert(!starts_with(a, "--src="@)) by {
        if starts_with(a, "--src="@) {
            assert(a.subrange(0, 6)[3] == "--src="@[3]);
        }
    }
    assert(!starts_with(a, "-s="@)) by {
        if starts_with(a, "-s="@) {
            assert(a.subrange(0, 3)[1] == "-s="@[1]);
        }
    }
    assert(!starts_with(a, "--config="@)) by {
        if starts_with(a, "--config="@) {
            assert(a.subrange(0, 9)[2] == "--config="@[2]);
        }
    }
    assert(!starts_with(a, "-conf="@)) by {
        if starts_with(a, "-conf="@) {
            assert(a.subrange(0, 6)[1] == "-conf="@[1]);
        }
    }
    assert(!starts_with(a, "--conn="@)) by {
        if starts_with(a, "--conn="@) {
            assert(a.subrange(0, 7)[2] == "--conn="@[2]);
        }
    }
    assert(!starts_with(a, "-c="@)) by {
        if starts_with(a, "-c="@) {
            assert(a.subrange(0, 3)[1] == "-c="@[1]);
        }
    }
    assert(starts_with(a, "--send"@));
}

/// What reading a whole command line leaves of the settings: the method is
/// the first word in ASCII upper case, and the options act as
/// [`lemma_options_frame`] says.
pub proof fn lemma_parse_args_frame(st: CliModel, args: Seq<Seq<char>>)
    requires
        args.len() >= 1,
        parse_args(st, args).0 == ArgsOutcome::Parsed,
    ensures
        parse_args(st, args).1.method == ascii_upper(args[0]),
        parse_args(st, args).1.receive == st.receive + received_names(args.drop_first()),
        parse_args(st, args).1.dbg == (st.dbg || has_kind(args.drop_first(), OptionKind::Debug)),
        !has_kind(args.drop_first(), OptionKind::SourceDir) ==> parse_args(st, args).1.srcdir
            == st.srcdir,
        !has_kind(args.drop_first(), OptionKind::Config) ==> parse_args(st, args).1.config
            == st.config,
        !has_kind(args.drop_first(), OptionKind::Connection) ==> parse_args(st, args).1.connection
            == st.connection,
        forall|k: Seq<char>|
            st.send.dom().contains(k) && !sends_to(args.drop_first(), k) ==> #[trigger] parse_args(
                st,
                args,
            ).1.send.dom().contains(k) && parse_args(st, args).1.send[k] == st.send[k],
{
    lemma_options_frame(CliModel { method: ascii_upper(args[0]), ..st }, args.drop_first());
}

/// `a` and `b` are two spellings of one option with one value: `-d` and
/// `--debug`, or the same text after `-s=` and `--src=`, `-conf=` and
/// `--config=`, or `-c=` and `--conn=` (either way round).
pub open spec fn respelled(a: Seq<char>, b: Seq<char>) -> bool {
    ||| (a == "-d"@ && b == "--debug"@)
    ||| (a == "--debug"@ && b == "-d"@)
    ||| exists|x: Seq<char>| #[trigger] spelled_pair(a, b, x)
}

/// `a` and `b` are one option spelled with its two prefixes, followed by `x`.
pub open spec fn spelled_pair(a: Seq<char>, b: Seq<char>, x: Seq<char>) -> bool {
    ||| (a == "-s="@ + x && b == "--src="@ + x)
    ||| (a == "--src="@ + x && b == "-s="@ + x)
    ||| (a == "-conf="@ + x && b == "--config="@ + x)
    ||| (a == "--config="@ + x && b == "-conf="@ + x)
    ||| (a == "-c="@ + x && b == "--conn="@ + x)
    ||| (a == "--conn="@ + x && b == "-c="@ + x)
}

proof fn lemma_short_src(x: Seq<char>)
    ensures
        option_kind("-s="@ + x) == OptionKind::SourceDir,
        option_value("-s="@ + x) == x,
{
    reveal_strlit("-s=");
    reveal_strlit("--src=");
    reveal_strlit("-d");
    reveal_strlit("-D");
    reveal_strlit("--debug");
    reveal_strlit("--Debug");
    let p = "-s="@;
    lemma_differs_at(p, x, "-d"@, 1);
    lemma_differs_at(p, x, "-D"@, 1);
    lemma_differs_at(p, x, "--debug"@, 1);
    lemma_differs_at(p, x, "--Debug"@, 1);
    lemma_differs_at(p, x, "--src="@, 1);
    lemma_starts_with_self(p);
    lemma_prefix_kept(p, x, p);
    assert((p + x).skip(p.len() as int) =~= x);
}

proof fn lemma_long_src(x: Seq<char>)
    ensures
        option_kind("--src="@ + x) == OptionKind::SourceDir,
        option_value("--src="@ + x) == x,
{
    reveal_strlit("--src=");
    reveal_strlit("-d");
    reveal_strlit("-D");
    reveal_strlit("--debug");
    reveal_strlit("--Debug");
    let p = "--src="@;
    lemma_differs_at(p, x, "-d"@, 1);
    lemma_differs_at(p, x, "-D"@, 1);
    lemma_differs_at(p, x, "--debug"@, 2);
    lemma_differs_at(p, x, "--Debug"@, 2);
    lemma_starts_with_self(p);
    lemma_prefix_kept(p, x, p);
    assert((p + x).skip(p.len() as int) =~= x);
}

proof fn lemma_short_config(x: Seq<char>)
    ensures
        option_kind("-conf="@ + x) == OptionKind::Config,
        option_value("-conf="@ + x) == x,
{
    reveal_strlit("-conf=");
    reveal_strlit("--config=");
    reveal_strlit("--src=");
    reveal_strlit("-s=");
    reveal_strlit("-d");
    reveal_strlit("-D");
    reveal_strlit("--debug");
    reveal_strlit("--Debug");
    let p = "-conf="@;
    lemma_differs_at(p, x, "-d"@, 1);
    lemma_differs_at(p, x, "-D"@, 1);
    lemma_differs_at(p, x, "--debug"@, 1);
    lemma_differs_at(p, x, "--Debug"@, 1);
    lemma_differs_at(p, x, "--src="@, 1);
    lemma_differs_at(p, x, "-s="@, 1);
    lemma_differs_at(p, x, "--config="@, 1);
    lemma_starts_with_self(p);
    lemma_prefix_kept(p, x, p);
    assert((p + x).skip(p.len() as int) =~= x);
}

proof fn lemma_long_config(x: Seq<char>)
    ensures
        option_kind("--config="@ + x) == OptionKind::Config,
        option_value("--config="@ + x) == x,
{
    reveal_strlit("--config=");
    reveal_strlit("--src=");
    reveal_strlit("-s=");
    reveal_strlit("-d");
    reveal_strlit("-D");
    reveal_strlit("--debug");
    reveal_strlit("--Debug");
    let p = "--config="@;
    lemma_differs_at(p, x, "-d"@, 1);
    lemma_differs_at(p, x, "-D"@, 1);
    lemma_differs_at(p, x, "--debug"@, 2);
    lemma_differs_at(p, x, "--Debug"@, 2);
    lemma_differs_at(p, x, "--src="@, 2);
    lemma_differs_at(p, x, "-s="@, 1);
    lemma_starts_with_self(p);
    lemma_prefix_kept(p, x, p);
    assert((p + x).skip(p.len() as int) =~= x);
}

/// A connection option read after a prefix without parentheses has the
/// parentheses, and so the items, of the text after the prefix.
proof fn lemma_prefixed_items(p: Seq<char>, x: Seq<char>)
    requires
        forall|j: int| 0 <= j < p.len() ==> p[j] != '(' && p[j] != ')',
    ensures
        paren_span(p + x) is Some <==> paren_span(x) is Some,
        paren_span(x) is Some ==> list_items(p + x) == list_items(x),
{
    lemma_find_char_shift(p, x, '(');
    lemma_find_char_shift(p, x, ')');
    if paren_span(x) is Some {
        let (s, e) = paren_span(x).unwrap();
        crate::text::lemma_find_from(x, seq![')'], 0);
        crate::text::lemma_find_from(x, seq!['('], 0);
        assert(find(x, seq![')']) == Some(e));
        assert(find(x, seq!['(']) == Some(s - 1));
        assert(0 <= s <= e < x.len());
        assert(paren_span(p + x) == Some((s + p.len(), e + p.len())));
        assert((p + x).subrange(s + p.len(), e + p.len()) =~= x.subrange(s, e));
    }
}

proof fn lemma_short_conn(x: Seq<char>)
    ensures
        option_kind("-c="@ + x) == OptionKind::Connection,
        paren_span("-c="@ + x) is Some <==> paren_span(x) is Some,
        paren_span(x) is Some ==> list_items("-c="@ + x) == list_items(x),
{
    reveal_strlit("-c=");
    reveal_strlit("--conn=");
    reveal_strlit("-conf=");
    reveal_strlit("--config=");
    reveal_strlit("--src=");
    reveal_strlit("-s=");
    reveal_strlit("-d");
    reveal_strlit("-D");
    reveal_strlit("--debug");
    reveal_strlit("--Debug");
    let p = "-c="@;
    lemma_differs_at(p, x, "-d"@, 1);
    lemma_differs_at(p, x, "-D"@, 1);
    lemma_differs_at(p, x, "--debug"@, 1);
    lemma_differs_at(p, x, "--Debug"@, 1);
    lemma_differs_at(p, x, "--src="@, 1);
    lemma_differs_at(p, x, "-s="@, 1);
    lemma_differs_at(p, x, "--config="@, 1);
    lemma_differs_at(p, x, "-conf="@, 2);
    lemma_differs_at(p, x, "--conn="@, 1);
    lemma_starts_with_self(p);
    lemma_prefix_kept(p, x, p);
    lemma_prefixed_items(p, x);
}

proof fn lemma_long_conn(x: Seq<char>)
    ensures
        option_kind("--conn="@ + x) == OptionKind::Connection,
        paren_span("--conn="@ + x) is Some <==> paren_span(x) is Some,
        paren_span(x) is Some ==> list_items("--conn="@ + x) == list_items(x),
{
    reveal_strlit("--conn=");
    reveal_strlit("-conf=");
    reveal_strlit("--config=");
    reveal_strlit("--src=");
    reveal_strlit("-s=");
    reveal_strlit("-d");
    reveal_strlit("-D");
    reveal_strlit("--debug");
    reveal_strlit("--Debug");
    let p = "--conn="@;
    lemma_differs_at(p, x, "-d"@, 1);
    lemma_differs_at(p, x, "-D"@, 1);
    lemma_differs_at(p, x, "--debug"@, 2);
    lemma_differs_at(p, x, "--Debug"@, 2);
    lemma_differs_at(p, x, "--src="@, 2);
    lemma_differs_at(p, x, "-s="@, 1);
    lemma_differs_at(p, x, "--config="@, 5);
    lemma_differs_at(p, x, "-conf="@, 1);
    lemma_starts_with_self(p);
    lemma_prefix_kept(p, x, p);
    lemma_prefixed_items(p, x);
}

/// Two spellings of one option are the same option: of the same kind, well
/// formed alike, and, when well formed, read alike.
pub proof fn lemma_respelled_option(st: CliModel, a: Seq<char>, b: Seq<char>)
    requires
        respelled(a, b),
    ensures
        option_kind(a) == option_kind(b),
        option_well_formed(a) == option_well_formed(b),
        option_well_formed(a) ==> apply_option(st, a) == apply_option(st, b),
{
    reveal_strlit("-d");
    reveal_strlit("--debug");
    if (a == "-d"@ && b == "--debug"@) || (a == "--debug"@ && b == "-d"@) {
    } else {
        let x = choose|x: Seq<char>| #[trigger] spelled_pair(a, b, x);
        lemma_short_src(x);
        lemma_long_src(x);
        lemma_short_config(x);
        lemma_long_config(x);
        lemma_short_conn(x);
        lemma_long_conn(x);
    }
}

/// Respelling option `j` of `opts` changes neither whether the options can be
/// read nor, when they can, what reading them gives.
pub proof fn lemma_respelled_options(st: CliModel, opts: Seq<Seq<char>>, j: int, b: Seq<char>)
    requires
        0 <= j < opts.len(),
        respelled(opts[j], b),
    ensures
        options_well_formed(opts) == options_well_formed(opts.update(j, b)),
        options_well_formed(opts) ==> apply_options(st, opts) == apply_options(
            st,
            opts.update(j, b),
        ),
    decreases opts.len(),
{
    let o2 = opts.update(j, b);
    lemma_respelled_option(st, opts[j], b);
    if j == 0 {
        assert(o2[0] == b);
        assert(o2.drop_first() =~= opts.drop_first());
    } else {
        assert(o2[0] == opts[0]);
        assert(o2.drop_first() =~= opts.drop_first().update(j - 1, b));
        assert(opts.drop_first()[j - 1] == opts[j]);
        if !(option_kind(opts[0]) is Unknown) {
            lemma_respelled_options(apply_option(st, opts[0]), opts.drop_first(), j - 1, b);
        }
    }
}

/// Respelling an option of a command line (any word after the method)
/// changes neither whether it can be read nor, when it can, what reading it
/// gives: the same settings and the same outcome.
pub proof fn lemma_respelled_args(st: CliModel, args: Seq<Seq<char>>, i: int, b: Seq<char>)
    requires
        1 <= i < args.len(),
        respelled(args[i], b),
    ensures
        args_well_formed(args) == args_well_formed(args.update(i, b)),
        args_well_formed(args) ==> parse_args(st, args) == parse_args(st, args.update(i, b)),
{
    let a2 = args.update(i, b);
    assert(a2[0] == args[0]);
    assert(a2.drop_first() =~= args.drop_first().update(i - 1, b));
    assert(args.drop_first()[i - 1] == args[i]);
    lemma_respelled_options(
        CliModel { method: ascii_upper(args[0]), ..st },
        args.drop_first(),
        i - 1,
        b,
    );
}

/// What the program is asked to do, by the method word.
#[derive(Clone, Copy, Debug, PartialEq, Eq, Structural)]
pub enum Command {
    /// `SEND`: send the files given with `--send`.
    Send,
    /// `RECEIVE`: fetch files from the senders given with `--receive`.
    Receive,
    /// Any other method: the usage text is shown.
    Unknown,
}

/// The command a method word names (the method is already in upper case).
pub open spec fn command_of(method: Seq<char>) -> Command {
    if method == "SEND"@ {
        Command::Send
    } else if method == "RECEIVE"@ {
        Command::Receive
    } else {
        Command::Unknown
    }
}

impl CLI {
    /// The settings before the command line is read: method `RECEIVE`,
    /// nothing to send or receive, default connection.
    pub fn new() -> (c: Self)
        ensures
            c@ == initial_settings(),
    {
        let c = CLI {
            dbg: false,
            method: string_of(&chars_of("RECEIVE")),
            send: SendMap::new(),
            receive: Vec::new(),
            srcdir: None,
            connection: Connection::default(),
            config: None,
        };
        assert(c.receive.deep_view() =~= Seq::<Seq<char>>::empty());
        c
    }

    /// Reads option `a`, of kind `kind`, into the settings.
    fn read_option(&mut self, a: &Vec<char>, kind: OptionKind)
        requires
            kind == option_kind(a@),
            kind != OptionKind::Unknown,
            option_well_formed(a@),
        ensures
            final(self)@ == apply_option(old(self)@, a@),
    {
        match kind {
            OptionKind::Debug => {
                self.dbg = true;
            },
            OptionKind::SourceDir | OptionKind::Config => {
                let prefix = if starts_with_str(a, "--src=") {
                    chars_of("--src=")
                } else if starts_with_str(a, "-s=") {
                    chars_of("-s=")
                } else if starts_with_str(a, "--config=") {
                    chars_of("--config=")
                } else {
                    chars_of("-conf=")
                };
                proof {
                    if kind == OptionKind::Config && !starts_with(a@, "--config="@) {
                        assert(starts_with(a@, "-conf="@));
                    }
                }
                let value = string_of(&subvec(a, prefix.len(), a.len()));
                assert(value@ =~= option_value(a@));
                if kind == OptionKind::SourceDir {
                    self.srcdir = Some(value);
                } else {
                    self.config = Some(value);
                }
            },
            OptionKind::Connection => {
                let items = list_items_of(a).unwrap();
                assert(items[0].deep_view() =~= items[0]@);
                assert(items[1].deep_view() =~= items[1]@);
                assert(items[2].deep_view() =~= items[2]@);
                assert(items[3].deep_view() =~= items[3]@);
                let port = parse_u32_chars(&items[2]).unwrap();
                self.connection = Connection {
                    url: string_of(&items[0]),
                    ip: string_of(&items[1]),
                    port,
                    hostname: string_of(&items[3]),
                };
            },
            OptionKind::Send => {
                let e = find_char(a, '=').unwrap();
                let p = find_char(a, '(').unwrap();
                proof {
                    crate::text::lemma_find_from(a@, seq!['('], 0);
                }
                let mut name = subvec(a, e + 1, p);
                if name.len() > 0 && name[name.len() - 1] == '=' {
                    name.pop();
                }
                let recipient = string_of(&name);
                let items = list_items_of(a).unwrap();
                let paths = strings_of(&items);
                self.send.insert(recipient, paths);
            },
            OptionKind::Receive => {
                let items = list_items_of(a).unwrap();
                let names = strings_of(&items);
                let ghost start = self.receive.deep_view();
                let mut i: usize = 0;
                while i < names.len()
                    invariant
                        i <= names.len(),
                        self.receive.deep_view() =~= start + names.deep_view().take(i as int),
                        self.dbg == old(self).dbg,
                        self.method == old(self).method,
                        self.send == old(self).send,
                        self.connection == old(self).connection,
                        self.srcdir == old(self).srcdir,
                        self.config == old(self).config,
                        start == old(self).receive.deep_view(),
                    decreases names.len() - i,
                {
                    let ghost before = self.receive.deep_view();
                    self.receive.push(names[i].clone());
                    assert(self.receive.deep_view() =~= before.push(names[i as int]@));
                    i += 1;
                }
                assert(names.deep_view().take(i as int) =~= names.deep_view());
            },
            OptionKind::Unknown => {},
        }
    }

    /// The command named by the method.
    pub fn command(&self) -> (c: Command)
        ensures
            c == command_of(self@.method),
    {
        let m = chars_of(self.method.as_str());
        if eq_str(&m, "SEND") {
            Command::Send
        } else if eq_str(&m, "RECEIVE") {
            Command::Receive
        } else {
            Command::Unknown
        }
    }

    /// Reads the command line `args` (the words after the program name).
    ///
    /// The first word, in ASCII upper case, is the method; each later word
    /// is an option, read left to right. An empty command line, or an
    /// unknown option, gives [`ArgsOutcome::Help`]: the usage text is to be
    /// shown and the program ends.
    #[allow(non_snake_case)]
    pub fn Parse_Args(&mut self, args: &Vec<String>) -> (outcome: ArgsOutcome)
        requires
            args_well_formed(args.deep_view()),
        ensures
            (outcome, final(self)@) == parse_args(old(self)@, args.deep_view()),
    {
        if args.len() == 0 {
            return ArgsOutcome::Help;
        }
        let ghost all = args.deep_view();
        let first = chars_of(args[0].as_str());
        self.method = string_of(&to_ascii_uppercase(&first));
        let mut i: usize = 1;
        assert(all.drop_first() =~= all.skip(1));
        while i < args.len()
            invariant
                1 <= i <= args.len(),
                all == args.deep_view(),
                options_well_formed(all.skip(i as int)),
                apply_options(self@, all.skip(i as int)) == parse_args(old(self)@, all),
            decreases args.len() - i,
        {
            let a = chars_of(args[i].as_str());
            assert(all.skip(i as int)[0] == a@);
            assert(all.skip(i as int).drop_first() =~= all.skip(i + 1));
            let kind = classify_option(&a);
            if kind == OptionKind::Unknown {
                return ArgsOutcome::Help;
            }
            self.read_option(&a, kind);
            i += 1;
        }
        assert(all.skip(i as int).len() == 0);
        ArgsOutcome::Parsed
    }
}

} // verus!
