//! Command lines of hosted jobs: how a text becomes arguments, and which built-in procedure it
//! names.
use vstd::prelude::*;

use crate::hosted;
use crate::json;
use crate::keyset;
use crate::num;
use crate::text;
use crate::hosted::read_ask;
use crate::json::{sorted_members, to_text, Json, JsonV};
use crate::keyset::{key_text, keyset_error};
use crate::text::{cat3, chars_of, contains, is_white_space, same, strip_prefix, substring};

verus! {

/// How far a command line has been read.
pub struct Scan {
    /// The arguments that are complete.
    pub out: Seq<Seq<char>>,
    /// The argument that is being read.
    pub cur: Seq<char>,
    /// A quotation is open.
    pub quoted: bool,
    /// An argument is being read, though it may be empty.
    pub has: bool,
}

/// One character further: a quotation mark opens or closes a quotation, white space outside of
/// one ends an argument, anything else belongs to the argument.
pub open spec fn scan_step(s: Scan, c: char) -> Scan {
    if c == '"' {
        Scan { quoted: !s.quoted, has: true, ..s }
    } else if text::white_space(c) && !s.quoted {
        if s.has {
            Scan { out: s.out.push(s.cur), cur: seq![], quoted: s.quoted, has: false }
        } else {
            s
        }
    } else {
        Scan { cur: s.cur.push(c), has: true, ..s }
    }
}

/// A command line read to its end.
pub open spec fn scan(s: Seq<char>) -> Scan
    decreases s.len(),
{
    if s.len() == 0 {
        Scan { out: seq![], cur: seq![], quoted: false, has: false }
    } else {
        scan_step(scan(s.drop_last()), s.last())
    }
}

/// The words of a command line; nothing where a quotation stays open.
pub open spec fn words(s: Seq<char>) -> Option<Seq<Seq<char>>> {
    let e = scan(s);
    if e.quoted {
        None
    } else if e.has {
        Some(e.out.push(e.cur))
    } else {
        Some(e.out)
    }
}

/// The words of a command line.
pub fn split_words(command: &str) -> (r: Option<Vec<String>>)
    ensures
        match r {
            Some(v) => words(command@) == Some(text::texts(v@)),
            None => words(command@) is None,
        },
{
    let v = chars_of(command);
    let mut out: Vec<String> = Vec::new();
    let mut cur = String::new();
    let mut quoted: bool = false;
    let mut has: bool = false;
    let mut i: usize = 0;
    assert(text::texts(out@) =~= scan(v@.take(0)).out);
    while i < v.len()
        invariant
            i <= v@.len(),
            text::texts(out@) == scan(v@.take(i as int)).out,
            cur@ == scan(v@.take(i as int)).cur,
            quoted == scan(v@.take(i as int)).quoted,
            has == scan(v@.take(i as int)).has,
        decreases v@.len() - i,
    {
        assert(v@.take(i + 1).drop_last() == v@.take(i as int));
        let c: char = v[i];
        if c == '"' {
            quoted = !quoted;
            has = true;
        } else if is_white_space(c) && !quoted {
            if has {
                let ghost o = out@;
                let ghost w = cur@;
                out.push(cur);
                cur = String::new();
                has = false;
                assert(text::texts(out@) =~= text::texts(o).push(w));
                assert(cur@ =~= seq![]);
            }
        } else {
            cur.push(c);
            has = true;
        }
        i = i + 1;
    }
    assert(v@.take(i as int) == v@);
    if quoted {
        return None;
    }
    if has {
        let ghost o = out@;
        let ghost w = cur@;
        out.push(cur);
        assert(text::texts(out@) =~= text::texts(o).push(w));
    }
    Some(out)
}

/// The name in a word of the form `${name}`.
pub open spec fn placeholder(t: Seq<char>) -> Option<Seq<char>> {
    if text::prefixed(t, "${"@) {
        let rest = t.skip("${"@.len() as int);
        if rest.len() > 0 && rest.last() == '}' {
            Some(rest.drop_last())
        } else {
            None
        }
    } else {
        None
    }
}

/// The argument that a word stands for, or why it stands for none.
pub open spec fn argument(t: Seq<char>, bound: JsonV) -> Result<Seq<char>, Seq<char>> {
    match placeholder(t) {
        Some(name) => {
            let value = match bound.member(name) {
                Some(v) => keyset::key_text_v(v),
                None => None,
            };
            match value {
                Some(v) => Ok(v),
                None => Err(
                    "the hosted command needs '"@ + name
                        + "', and the dispatch carried no single value for it — running with the argument dropped would be a different command from the one that was sent"@,
                ),
            }
        },
        None => if text::occurs(t, "${"@) {
            Err("'"@ + t + "': a substitution must be a whole argument, not part of one"@)
        } else {
            Ok(t)
        },
    }
}

/// The arguments that words stand for, or the first reason why there are none.
pub open spec fn arguments(ws: Seq<Seq<char>>, bound: JsonV) -> Result<Seq<Seq<char>>, Seq<char>>
    decreases ws.len(),
{
    if ws.len() == 0 {
        Ok(seq![])
    } else {
        match arguments(ws.drop_last(), bound) {
            Err(e) => Err(e),
            Ok(before) => match argument(ws.last(), bound) {
                Err(e) => Err(e),
                Ok(a) => Ok(before.push(a)),
            },
        }
    }
}

/// The arguments of a command line, or the error that it is answered with.
pub open spec fn argv_v(command: Seq<char>, bound: JsonV) -> Result<Seq<Seq<char>>, Seq<char>> {
    match words(command) {
        Some(ws) => arguments(ws, bound),
        None => Err("the hosted command has an unclosed quote"@),
    }
}

fn find_placeholder(t: &str) -> (r: Option<String>)
    ensures
        text::opt_text(r) == placeholder(t@),
{
    match strip_prefix(t, "${") {
        Some(rest) => {
            let v = chars_of(rest.as_str());
            if v.len() > 0 && v[v.len() - 1] == '}' {
                let name = substring(&v, 0, v.len() - 1);
                assert(name@ =~= rest@.drop_last());
                Some(name)
            } else {
                None
            }
        },
        None => None,
    }
}

fn make_argument(t: &str, bound: &Json) -> (r: Result<String, String>)
    ensures
        match r {
            Ok(a) => argument(t@, bound@) == Ok::<Seq<char>, Seq<char>>(a@),
            Err(e) => argument(t@, bound@) == Err::<Seq<char>, Seq<char>>(e@),
        },
{
    match find_placeholder(t) {
        Some(name) => {
            let value: Option<String> = match bound.get(name.as_str()) {
                Some(v) => key_text(v),
                None => None,
            };
            match value {
                Some(v) => Ok(v),
                None => Err(
                    cat3(
                        "the hosted command needs '",
                        name.as_str(),
                        "', and the dispatch carried no single value for it — running with the argument dropped would be a different command from the one that was sent",
                    ),
                ),
            }
        },
        None => if contains(t, "${") {
            Err(
                cat3(
                    "'",
                    t,
                    "': a substitution must be a whole argument, not part of one",
                ),
            )
        } else {
            Ok(t.to_owned())
        },
    }
}

/// The arguments of a command line. A placeholder is replaced after the line was cut into
/// words, so what stands for it stays one argument.
pub fn split_argv(command: &str, bound: &Json) -> (r: Result<Vec<String>, Json>)
    ensures
        match r {
            Ok(v) => argv_v(command@, bound@) == Ok::<Seq<Seq<char>>, Seq<char>>(text::texts(v@)),
            Err(j) => argv_v(command@, bound@) is Err && j@ == keyset::error_v(
                argv_v(command@, bound@)->Err_0,
            ),
        },
{
    let ws = match split_words(command) {
        Some(w) => w,
        None => {
            return Err(keyset_error("the hosted command has an unclosed quote"));
        },
    };
    let ghost all = text::texts(ws@);
    let mut argv: Vec<String> = Vec::new();
    let mut i: usize = 0;
    assert(text::texts(argv@) =~= Seq::<Seq<char>>::empty());
    while i < ws.len()
        invariant
            i <= ws@.len(),
            all == text::texts(ws@),
            words(command@) == Some(all),
            arguments(all.take(i as int), bound@) == Ok::<Seq<Seq<char>>, Seq<char>>(text::texts(argv@)),
        decreases ws@.len() - i,
    {
        assert(all.take(i + 1).drop_last() == all.take(i as int));
        assert(all.take(i + 1).last() == ws@[i as int]@);
        match make_argument(ws[i].as_str(), bound) {
            Ok(a) => {
                let ghost o = argv@;
                argv.push(a);
                assert(text::texts(argv@) =~= text::texts(o).push(a@));
            },
            Err(e) => {
                proof {
                    lemma_first_error(all, i + 1, bound@);
                }
                return Err(keyset_error(e.as_str()));
            },
        }
        i = i + 1;
    }
    assert(all.take(i as int) == all);
    Ok(argv)
}

/// An error among the first words is the error of the whole line.
proof fn lemma_first_error(ws: Seq<Seq<char>>, i: int, bound: JsonV)
    requires
        0 <= i <= ws.len(),
        arguments(ws.take(i), bound) is Err,
    ensures
        arguments(ws, bound) == arguments(ws.take(i), bound),
    decreases ws.len(),
{
    if i == ws.len() {
        assert(ws.take(i) == ws);
    } else {
        assert(ws.drop_last().take(i) == ws.take(i));
        lemma_first_error(ws.drop_last(), i, bound);
    }
}

/// Every word gives exactly one argument, whatever the value that is put in its place: a value
/// never adds an argument and never changes another.
pub proof fn a_value_stays_one_argument(command: Seq<char>, bound: JsonV)
    requires
        argv_v(command, bound) is Ok,
    ensures
        words(command) is Some,
        argv_v(command, bound)->Ok_0.len() == words(command)->0.len(),
        forall|i: int|
            0 <= i < words(command)->0.len() ==> argument(#[trigger] words(command)->0[i], bound)
                == Ok::<Seq<char>, Seq<char>>(argv_v(command, bound)->Ok_0[i]),
{
    lemma_arguments(words(command)->0, bound);
}

proof fn lemma_arguments(ws: Seq<Seq<char>>, bound: JsonV)
    requires
        arguments(ws, bound) is Ok,
    ensures
        arguments(ws, bound)->Ok_0.len() == ws.len(),
        forall|i: int|
            0 <= i < ws.len() ==> argument(#[trigger] ws[i], bound) == Ok::<Seq<char>, Seq<char>>(
                arguments(ws, bound)->Ok_0[i],
            ),
    decreases ws.len(),
{
    if ws.len() > 0 {
        let t = ws.drop_last();
        lemma_arguments(t, bound);
        assert forall|i: int| 0 <= i < ws.len() implies argument(#[trigger] ws[i], bound) == Ok::<
            Seq<char>,
            Seq<char>,
        >(arguments(ws, bound)->Ok_0[i]) by {
            if i < t.len() {
                assert(t[i] == ws[i]);
            }
        }
    }
}

/// The procedures that a device has built in.
#[derive(Clone, Copy, PartialEq, Eq, Structural)]
pub enum Procedure {
    Script,
    Disconnect,
    Wol,
    FilePull,
    FilePush,
    ClientLog,
    ClientLogs,
    Inventory,
    Perf,
    Fs,
    Services,
    JobRuns,
    JobKill,
}

/// The procedure of a name.
pub open spec fn procedure_v(name: Seq<char>) -> Option<Procedure> {
    if name == "script"@ {
        Some(Procedure::Script)
    } else if name == "disconnect"@ {
        Some(Procedure::Disconnect)
    } else if name == "wol"@ {
        Some(Procedure::Wol)
    } else if name == "file-pull"@ {
        Some(Procedure::FilePull)
    } else if name == "file-push"@ {
        Some(Procedure::FilePush)
    } else if name == "client-log"@ {
        Some(Procedure::ClientLog)
    } else if name == "client-logs"@ {
        Some(Procedure::ClientLogs)
    } else if name == "inventory"@ {
        Some(Procedure::Inventory)
    } else if name == "perf"@ {
        Some(Procedure::Perf)
    } else if name == "fs"@ {
        Some(Procedure::Fs)
    } else if name == "services"@ {
        Some(Procedure::Services)
    } else if name == "job-runs"@ {
        Some(Procedure::JobRuns)
    } else if name == "job-kill"@ {
        Some(Procedure::JobKill)
    } else {
        None
    }
}

/// The procedure of a name.
pub fn procedure(name: &str) -> (r: Option<Procedure>)
    ensures
        r == procedure_v(name@),
{
    if same(name, "script") {
        Some(Procedure::Script)
    } else if same(name, "disconnect") {
        Some(Procedure::Disconnect)
    } else if same(name, "wol") {
        Some(Procedure::Wol)
    } else if same(name, "file-pull") {
        Some(Procedure::FilePull)
    } else if same(name, "file-push") {
        Some(Procedure::FilePush)
    } else if same(name, "client-log") {
        Some(Procedure::ClientLog)
    } else if same(name, "client-logs") {
        Some(Procedure::ClientLogs)
    } else if same(name, "inventory") {
        Some(Procedure::Inventory)
    } else if same(name, "perf") {
        Some(Procedure::Perf)
    } else if same(name, "fs") {
        Some(Procedure::Fs)
    } else if same(name, "services") {
        Some(Procedure::Services)
    } else if same(name, "job-runs") {
        Some(Procedure::JobRuns)
    } else if same(name, "job-kill") {
        Some(Procedure::JobKill)
    } else {
        None
    }
}

/// A built-in procedure and what it is asked.
pub struct BuiltinCall {
    pub procedure: Procedure,
    pub params: Option<String>,
}

/// What a procedure is asked: its first argument, else the bare ask, else the whole ask where
/// there is one.
pub open spec fn builtin_params(args: Seq<Seq<char>>, bound: JsonV) -> Option<Seq<char>> {
    if args.len() > 1 {
        Some(args[1])
    } else {
        match bound.member("ask"@) {
            Some(JsonV::Str(s)) => Some(s),
            Some(other) => Some(json::compact(other)),
            None => match bound {
                JsonV::Obj(m) => if m.dom().len() > 0 {
                    Some(json::compact(bound))
                } else {
                    None
                },
                _ => None,
            },
        }
    }
}

/// The error that a built-in command is answered with, where it is.
pub open spec fn builtin_error(command: Seq<char>, bound: JsonV) -> Option<Seq<char>> {
    match argv_v(command, bound) {
        Err(e) => Some(e),
        Ok(args) => if args.len() == 0 {
            Some("the hosted procedure is empty"@)
        } else if procedure_v(args[0]) is None {
            Some("this client has no '"@ + args[0] + "' procedure"@)
        } else {
            None
        },
    }
}

/// The procedure that a command names and what it is asked.
pub fn builtin_call(command: &str, bound: &Json) -> (r: Result<BuiltinCall, Json>)
    ensures
        match r {
            Ok(c) => {
                &&& builtin_error(command@, bound@) is None
                &&& procedure_v(argv_v(command@, bound@)->Ok_0[0]) == Some(c.procedure)
                &&& text::opt_text(c.params) == builtin_params(argv_v(command@, bound@)->Ok_0, bound@)
            },
            Err(j) => builtin_error(command@, bound@) is Some && j@ == keyset::error_v(
                builtin_error(command@, bound@)->0,
            ),
        },
{
    let argv = match split_argv(command, bound) {
        Ok(a) => a,
        Err(j) => {
            return Err(j);
        },
    };
    let ghost args = text::texts(argv@);
    assert(args.len() == argv@.len());
    if argv.len() == 0 {
        return Err(keyset_error("the hosted procedure is empty"));
    }
    assert(args[0] == argv@[0]@);
    let p = match procedure(argv[0].as_str()) {
        Some(p) => p,
        None => {
            return Err(
                keyset_error(
                    cat3("this client has no '", argv[0].as_str(), "' procedure").as_str(),
                ),
            );
        },
    };
    let params: Option<String> = if argv.len() > 1 {
        assert(args[1] == argv@[1]@);
        Some(argv[1].clone())
    } else {
        match bound.get("ask") {
            Some(v) => match v.as_str() {
                Some(s) => Some(s.to_owned()),
                None => Some(to_text(v)),
            },
            None => {
                let ms = sorted_members(bound);
                proof {
                    json::lemma_ordered_distinct(ms@);
                    json::lemma_members_len(ms@);
                }
                if ms.len() > 0 {
                    Some(to_text(bound))
                } else {
                    None
                }
            },
        }
    };
    Ok(BuiltinCall { procedure: p, params })
}

/// The procedure that a command names and what it is asked, from the text of the ask.
pub fn exec_builtin(command: &str, ask: &str) -> (r: Result<BuiltinCall, Json>)
    ensures
        ({
            let bound = hosted::ask_of(Some(ask@));
            match r {
                Ok(c) => {
                    &&& builtin_error(command@, bound) is None
                    &&& procedure_v(argv_v(command@, bound)->Ok_0[0]) == Some(c.procedure)
                    &&& text::opt_text(c.params) == builtin_params(argv_v(command@, bound)->Ok_0, bound)
                },
                Err(j) => builtin_error(command@, bound) is Some && j@ == keyset::error_v(
                    builtin_error(command@, bound)->0,
                ),
            }
        }),
{
    let bound = read_ask(Some(ask));
    builtin_call(command, &bound)
}

/// How many quotation marks a text holds.
pub open spec fn marks(s: Seq<char>) -> nat {
    s.filter(|c: char| c == '"').len()
}

/// A text without its quotation marks.
pub open spec fn unmarked(s: Seq<char>) -> Seq<char> {
    s.filter(|c: char| c != '"')
}

/// White space outside of quotations stands at a place of a line.
pub open spec fn breaks_at(s: Seq<char>, i: int) -> bool {
    text::white_space(s[i]) && marks(s.take(i)) % 2 == 0
}

/// No white space outside of quotations stands in a text.
pub open spec fn unbroken(s: Seq<char>) -> bool {
    forall|i: int| 0 <= i < s.len() ==> !breaks_at(s, i)
}

proof fn lemma_marks(s: Seq<char>)
    ensures
        s.len() == 0 ==> marks(s) == 0 && unmarked(s).len() == 0,
        s.len() > 0 ==> marks(s) == marks(s.drop_last()) + (if s.last() == '"' {
            1nat
        } else {
            0
        }),
        s.len() > 0 ==> unmarked(s) == (if s.last() == '"' {
            unmarked(s.drop_last())
        } else {
            unmarked(s.drop_last()).push(s.last())
        }),
{
    reveal(Seq::filter);
}

/// A quotation is open exactly behind an odd number of marks.
proof fn lemma_open(s: Seq<char>)
    ensures
        scan(s).quoted == (marks(s) % 2 == 1),
    decreases s.len(),
{
    lemma_marks(s);
    if s.len() > 0 {
        lemma_open(s.drop_last());
        assert(!text::white_space('"'));
    }
}

proof fn lemma_run(s: Seq<char>)
    requires
        unbroken(s),
    ensures
        scan(s).out.len() == 0,
        scan(s).cur == unmarked(s),
        scan(s).has == (s.len() > 0),
    decreases s.len(),
{
    lemma_marks(s);
    if s.len() > 0 {
        let t = s.drop_last();
        assert forall|i: int| 0 <= i < t.len() implies !breaks_at(t, i) by {
            assert(t.take(i) =~= s.take(i));
            assert(!breaks_at(s, i));
        }
        lemma_run(t);
        lemma_open(t);
        assert(s.take(s.len() - 1) =~= t);
        assert(!breaks_at(s, s.len() - 1));
    } else {
        assert(scan(s).cur =~= unmarked(s));
    }
}

/// Behind white space that ends an argument a line is read like a line of its own.
proof fn lemma_behind(p: Seq<char>, b: Seq<char>)
    requires
        !scan(p).quoted,
        !scan(p).has,
        scan(p).cur.len() == 0,
    ensures
        scan(p + b).out == scan(p).out + scan(b).out,
        scan(p + b).cur == scan(b).cur,
        scan(p + b).quoted == scan(b).quoted,
        scan(p + b).has == scan(b).has,
    decreases b.len(),
{
    if b.len() == 0 {
        assert(p + b =~= p);
        assert(scan(p).cur =~= scan(b).cur);
        assert(scan(p).out + scan(b).out =~= scan(p).out);
    } else {
        let t = b.drop_last();
        lemma_behind(p, t);
        assert((p + b).drop_last() =~= p + t);
        assert(scan(p + b).out =~= scan(p).out + scan(b).out);
    }
}

/// A quotation that stays open makes a line no command, and nothing else does.
pub proof fn only_an_open_quotation_is_refused(s: Seq<char>)
    ensures
        words(s) is None <==> marks(s) % 2 == 1,
{
    lemma_open(s);
}

/// A text without white space outside of its quotations is one argument: the text without its
/// quotation marks, however the quotations stand in it.
pub proof fn an_unbroken_text_is_one_argument(s: Seq<char>)
    requires
        s.len() > 0,
        unbroken(s),
        marks(s) % 2 == 0,
    ensures
        words(s) == Some(seq![unmarked(s)]),
{
    lemma_run(s);
    lemma_open(s);
    assert(scan(s).out.push(scan(s).cur) =~= seq![unmarked(s)]);
}

/// White space outside of quotations separates arguments: what stands before it and what stands
/// behind it are read apart, and it is part of neither.
pub proof fn white_space_separates_arguments(a: Seq<char>, w: char, b: Seq<char>)
    requires
        text::white_space(w),
        marks(a) % 2 == 0,
    ensures
        words(a + seq![w] + b) == (match (words(a), words(b)) {
            (Some(x), Some(y)) => Some(x + y),
            _ => None,
        }),
        words(Seq::<char>::empty()) == Some(Seq::<Seq<char>>::empty()),
{
    let p = a + seq![w];
    lemma_open(a);
    assert(p.drop_last() =~= a);
    assert(p.last() == w);
    assert(!text::white_space('"'));
    if !scan(a).has {
        lemma_idle(a);
    }
    lemma_behind(p, b);
    let e = scan(p + b);
    assert(words(a)->0 =~= scan(p).out);
    if !e.quoted {
        assert(words(p + b)->0 =~= words(a)->0 + words(b)->0);
    }
}

proof fn lemma_idle(s: Seq<char>)
    ensures
        !scan(s).has ==> scan(s).cur.len() == 0,
    decreases s.len(),
{
    if s.len() > 0 {
        lemma_idle(s.drop_last());
    }
}

/// The value that an ask binds to a name, as one argument.
pub open spec fn bound_value(bound: JsonV, name: Seq<char>) -> Option<Seq<char>> {
    match bound.member(name) {
        Some(JsonV::Str(s)) => Some(s),
        Some(JsonV::Int(n)) => Some(num::dec_int(n)),
        Some(JsonV::Real(t)) => Some(t),
        _ => None,
    }
}

/// A word that is a placeholder as a whole stands for the value that is bound to its name, as it
/// is, and the line is refused where there is none. A word without a placeholder stands for
/// itself. A word with a placeholder in it is refused.
pub proof fn a_word_stands_for_its_value(word: Seq<char>, name: Seq<char>, bound: JsonV)
    ensures
        word == "${"@ + name + "}"@ ==> match bound_value(bound, name) {
            Some(v) => argument(word, bound) == Ok::<Seq<char>, Seq<char>>(v),
            None => argument(word, bound) is Err,
        },
        !text::occurs(word, "${"@) ==> argument(word, bound) == Ok::<Seq<char>, Seq<char>>(word),
        text::occurs(word, "${"@) && (!text::prefixed(word, "${"@) || word.last() != '}')
            ==> argument(word, bound) is Err,
{
    reveal_strlit("${");
    reveal_strlit("}");
    if word == "${"@ + name + "}"@ {
        assert(word.take(2) =~= "${"@);
        assert(word.skip(2).drop_last() =~= name);
        assert(word.skip(2).last() == '}');
    }
    if !text::occurs(word, "${"@) && text::prefixed(word, "${"@) {
        assert(text::prefixed(word.skip(0), "${"@)) by {
            assert(word.skip(0) =~= word);
        }
    }
    if text::prefixed(word, "${"@) && word.last() != '}' && word.skip(2).len() > 0 {
        assert(word.skip(2).last() == word.last());
    }
}

/// A line is refused only where its quotation stays open or one of its words stands for nothing;
/// else it has one argument for each word, in their order.
pub proof fn a_line_has_an_argument_for_each_word(command: Seq<char>, bound: JsonV)
    ensures
        argv_v(command, bound) is Ok <==> words(command) is Some && forall|i: int|
            0 <= i < words(command)->0.len() ==> argument(#[trigger] words(command)->0[i], bound)
                is Ok,
        argv_v(command, bound) is Ok ==> argv_v(command, bound)->Ok_0 == Seq::new(
            words(command)->0.len(),
            |i: int| argument(words(command)->0[i], bound)->Ok_0,
        ),
{
    if words(command) is Some {
        let ws = words(command)->0;
        lemma_all_stand(ws, bound);
        if arguments(ws, bound) is Ok {
            lemma_arguments(ws, bound);
            assert(arguments(ws, bound)->Ok_0 =~= Seq::new(
                ws.len(),
                |i: int| argument(ws[i], bound)->Ok_0,
            ));
        }
    }
}

proof fn lemma_all_stand(ws: Seq<Seq<char>>, bound: JsonV)
    ensures
        arguments(ws, bound) is Ok <==> forall|i: int|
            0 <= i < ws.len() ==> argument(#[trigger] ws[i], bound) is Ok,
    decreases ws.len(),
{
    if ws.len() > 0 {
        let t = ws.drop_last();
        lemma_all_stand(t, bound);
        if arguments(ws, bound) is Ok {
            assert forall|i: int| 0 <= i < ws.len() implies argument(#[trigger] ws[i], bound) is Ok by {
                if i < t.len() {
                    assert(t[i] == ws[i]);
                }
            }
        }
        if forall|i: int| 0 <= i < ws.len() ==> argument(#[trigger] ws[i], bound) is Ok {
            assert forall|i: int| 0 <= i < t.len() implies argument(#[trigger] t[i], bound) is Ok by {
                assert(t[i] == ws[i]);
            }
            assert(argument(ws[ws.len() - 1], bound) is Ok);
        }
    }
}

/// Each built-in procedure goes by its own name.
pub proof fn procedures_go_by_their_names(name: Seq<char>)
    ensures
        procedure_v(name) == Some(Procedure::Script) <==> name == "script"@,
        procedure_v(name) == Some(Procedure::Disconnect) <==> name == "disconnect"@,
        procedure_v(name) == Some(Procedure::Wol) <==> name == "wol"@,
        procedure_v(name) == Some(Procedure::FilePull) <==> name == "file-pull"@,
        procedure_v(name) == Some(Procedure::FilePush) <==> name == "file-push"@,
        procedure_v(name) == Some(Procedure::ClientLog) <==> name == "client-log"@,
        procedure_v(name) == Some(Procedure::ClientLogs) <==> name == "client-logs"@,
        procedure_v(name) == Some(Procedure::Inventory) <==> name == "inventory"@,
        procedure_v(name) == Some(Procedure::Perf) <==> name == "perf"@,
        procedure_v(name) == Some(Procedure::Fs) <==> name == "fs"@,
        procedure_v(name) == Some(Procedure::Services) <==> name == "services"@,
        procedure_v(name) == Some(Procedure::JobRuns) <==> name == "job-runs"@,
        procedure_v(name) == Some(Procedure::JobKill) <==> name == "job-kill"@,
{
    reveal_strlit("script");
    reveal_strlit("disconnect");
    reveal_strlit("wol");
    reveal_strlit("file-pull");
    reveal_strlit("file-push");
    reveal_strlit("client-log");
    reveal_strlit("client-logs");
    reveal_strlit("inventory");
    reveal_strlit("perf");
    reveal_strlit("fs");
    reveal_strlit("services");
    reveal_strlit("job-runs");
    reveal_strlit("job-kill");
    assert("script"@.len() == 6 && "disconnect"@.len() == 10 && "wol"@.len() == 3);
    assert("file-pull"@.len() == 9 && "file-push"@.len() == 9 && "inventory"@.len() == 9);
    assert("file-pull"@[8] == 'l' && "file-push"@[8] == 'h' && "inventory"@[8] == 'y');
    assert("client-log"@.len() == 10 && "client-logs"@.len() == 11);
    assert("client-log"@[0] == 'c' && "disconnect"@[0] == 'd');
    assert("perf"@.len() == 4 && "fs"@.len() == 2);
    assert("services"@.len() == 8 && "job-runs"@.len() == 8 && "job-kill"@.len() == 8);
    assert("services"@[7] == 's' && "job-runs"@[7] == 's' && "job-kill"@[7] == 'l');
    assert("services"@[0] == 's' && "job-runs"@[0] == 'j' && "job-kill"@[0] == 'j');
}

/// What a procedure is asked: the first argument behind its name, where there is one; else the
/// text under `ask`, or the value under it as a text; else the whole ask, where it holds
/// anything.
pub proof fn a_procedure_is_asked(args: Seq<Seq<char>>, bound: JsonV, s: Seq<char>)
    ensures
        args.len() > 1 ==> builtin_params(args, bound) == Some(args[1]),
        args.len() <= 1 && bound.member("ask"@) == Some(JsonV::Str(s)) ==> builtin_params(
            args,
            bound,
        ) == Some(s),
        args.len() <= 1 && bound.member("ask"@) is Some && !(bound.member("ask"@)->0 is Str)
            ==> builtin_params(args, bound) == Some(json::compact(bound.member("ask"@)->0)),
        args.len() <= 1 && bound.member("ask"@) is None ==> builtin_params(args, bound) == (
        match bound {
            JsonV::Obj(m) => if m.dom().len() > 0 {
                Some(json::compact(bound))
            } else {
                None
            },
            _ => None,
        }),
{
}

/// A built-in command is refused where it cannot be read, is empty, or names no procedure, and
/// nowhere else.
pub proof fn a_builtin_is_refused_for_a_reason(command: Seq<char>, bound: JsonV)
    ensures
        builtin_error(command, bound) is None <==> argv_v(command, bound) is Ok && (argv_v(
            command,
            bound,
        )->Ok_0).len() > 0 && procedure_v((argv_v(command, bound)->Ok_0)[0]) is Some,
        argv_v(command, bound) matches Err(e) ==> builtin_error(command, bound) == Some(e),
        argv_v(command, bound) matches Ok(a) ==> a.len() == 0 ==> builtin_error(command, bound)
            == Some("the hosted procedure is empty"@),
        argv_v(command, bound) matches Ok(a) ==> a.len() > 0 ==> procedure_v(a[0]) is None
            ==> builtin_error(command, bound) == Some("this client has no '"@ + a[0] + "' procedure"@),
{
}

} // verus!
