//! The arguments handed to callgrind for a benchmark run, and the check of its exit code.
use vstd::prelude::*;

use crate::api::{ExitWith, RawArgs};
use crate::callgrind::line_views;
use crate::text::{
    append_str, eq_str, find_char, from_chars, lemma_find_char_bounds, owned, split_once,
    split_once_exec, strip_prefix, strip_prefix_exec, to_chars, trim, trim_chars,
};

verus! {

/// `yes` (around white space) is true, anything else false.
pub open spec fn yesno(value: Seq<char>) -> bool {
    trim(value) == "yes"@
}

/// `yes` (around white space) is true, anything else false
pub fn yesno_to_bool(value: &str) -> (r: bool)
    ensures
        r == yesno(value@),
{
    let t = trim_chars(&to_chars(value));
    eq_str(&t, "yes")
}

/// `yes` for true, `no` for false.
pub open spec fn yesno_text(value: bool) -> Seq<char> {
    if value {
        "yes"@
    } else {
        "no"@
    }
}

/// `yes` for true, `no` for false
pub fn bool_to_yesno(value: bool) -> (r: String)
    ensures
        r@ == yesno_text(value),
{
    if value {
        owned("yes")
    } else {
        owned("no")
    }
}

/// The view of the arguments for callgrind.
pub ghost struct CallgrindArgsView {
    pub i1: Seq<char>,
    pub d1: Seq<char>,
    pub ll: Seq<char>,
    pub cache_sim: bool,
    pub collect_atstart: bool,
    pub other: Seq<Seq<char>>,
    pub toggle_collect: Seq<Seq<char>>,
    pub compress_strings: bool,
    pub compress_pos: bool,
    pub verbose: bool,
    pub dump_instr: bool,
    pub dump_line: bool,
    pub combine_dumps: bool,
    pub callgrind_out_file: Option<Seq<char>>,
}

/// The default arguments: fixed cache sizes, so that runs are comparable between machines,
/// the cache simulation, no collection at the start, line positions and combined dumps.
pub open spec fn default_view(verbose: bool) -> CallgrindArgsView {
    CallgrindArgsView {
        i1: "32768,8,64"@,
        d1: "32768,8,64"@,
        ll: "8388608,16,64"@,
        cache_sim: true,
        collect_atstart: false,
        other: Seq::empty(),
        toggle_collect: Seq::empty(),
        compress_strings: false,
        compress_pos: false,
        verbose,
        dump_instr: false,
        dump_line: true,
        combine_dumps: true,
        callgrind_out_file: None,
    }
}

/// The arguments after the user argument `arg`: `--key=value` options of the cache sizes, the
/// collection at the start, the dumps and the compression of positions are taken; toggles are
/// appended; some options are ignored; other options are passed on; `--verbose` switches on
/// verbose output; other positional arguments are ignored.
pub open spec fn raw_arg_step(a: CallgrindArgsView, arg: Seq<char>) -> CallgrindArgsView {
    match strip_prefix(arg, "--"@) {
        Some(s) => match split_once(s, '=') {
            Some((key, value)) => option_step(a, key, value, arg),
            None => if arg == "--verbose"@ {
                CallgrindArgsView { verbose: true, ..a }
            } else {
                a
            },
        },
        None => a,
    }
}

/// The arguments after the option `--key=value` (the whole argument is `arg`).
pub open spec fn option_step(a: CallgrindArgsView, key: Seq<char>, value: Seq<char>, arg: Seq<char>) -> CallgrindArgsView {
    if key == "I1"@ {
        CallgrindArgsView { i1: value, ..a }
    } else if key == "D1"@ {
        CallgrindArgsView { d1: value, ..a }
    } else if key == "LL"@ {
        CallgrindArgsView { ll: value, ..a }
    } else if key == "collect-atstart"@ {
        CallgrindArgsView { collect_atstart: yesno(value), ..a }
    } else if key == "dump-instr"@ {
        CallgrindArgsView { dump_instr: yesno(value), ..a }
    } else if key == "dump-line"@ {
        CallgrindArgsView { dump_line: yesno(value), ..a }
    } else if key == "compress-pos"@ {
        CallgrindArgsView { compress_pos: yesno(value), ..a }
    } else if key == "toggle-collect"@ {
        CallgrindArgsView { toggle_collect: a.toggle_collect.push(value), ..a }
    } else if key == "separate-threads"@ || key == "cache-sim"@ || key == "callgrind-out-file"@
        || key == "compress-strings"@ || key == "combine-dumps"@ {
        a
    } else {
        CallgrindArgsView { other: a.other.push(arg), ..a }
    }
}

/// The arguments after the user arguments `args`, one after the other.
pub open spec fn raw_args_fold(a: CallgrindArgsView, args: Seq<Seq<char>>) -> CallgrindArgsView
    decreases args.len(),
{
    if args.len() == 0 {
        a
    } else {
        raw_arg_step(raw_args_fold(a, args.drop_last()), args.last())
    }
}

/// The arguments of a callgrind run
#[derive(Debug)]
pub struct CallgrindArgs {
    i1: String,
    d1: String,
    ll: String,
    cache_sim: bool,
    pub collect_atstart: bool,
    other: Vec<String>,
    toggle_collect: Vec<String>,
    compress_strings: bool,
    compress_pos: bool,
    pub verbose: bool,
    dump_instr: bool,
    dump_line: bool,
    combine_dumps: bool,
    callgrind_out_file: Option<String>,
}

impl CallgrindArgs {
    /// The view of these arguments
    pub closed spec fn view(&self) -> CallgrindArgsView {
        CallgrindArgsView {
            i1: self.i1@,
            d1: self.d1@,
            ll: self.ll@,
            cache_sim: self.cache_sim,
            collect_atstart: self.collect_atstart,
            other: line_views(self.other@),
            toggle_collect: line_views(self.toggle_collect@),
            compress_strings: self.compress_strings,
            compress_pos: self.compress_pos,
            verbose: self.verbose,
            dump_instr: self.dump_instr,
            dump_line: self.dump_line,
            combine_dumps: self.combine_dumps,
            callgrind_out_file: match self.callgrind_out_file {
                Some(f) => Some(f@),
                None => None,
            },
        }
    }

    /// The default arguments; `verbose` if the log shows debug messages
    pub fn default_with(verbose: bool) -> (r: CallgrindArgs)
        ensures
            r.view() == default_view(verbose),
    {
        let r = CallgrindArgs {
            i1: owned("32768,8,64"),
            d1: owned("32768,8,64"),
            ll: owned("8388608,16,64"),
            cache_sim: true,
            collect_atstart: false,
            other: Vec::new(),
            toggle_collect: Vec::new(),
            compress_strings: false,
            compress_pos: false,
            verbose,
            dump_instr: false,
            dump_line: true,
            combine_dumps: true,
            callgrind_out_file: None,
        };
        assert(line_views(r.other@) =~= Seq::<Seq<char>>::empty());
        assert(line_views(r.toggle_collect@) =~= Seq::<Seq<char>>::empty());
        r
    }

    /// Apply the option `--key=value`, which is the whole argument `arg`
    #[verifier::rlimit(60)]
    fn apply_option(&mut self, key: &Vec<char>, value: &Vec<char>, arg: &String)
        ensures
            final(self).view() == option_step(old(self).view(), key@, value@, arg@),
    {
        let v = from_chars(value);
        if eq_str(key, "I1") {
            self.i1 = v;
        } else if eq_str(key, "D1") {
            self.d1 = v;
        } else if eq_str(key, "LL") {
            self.ll = v;
        } else if eq_str(key, "collect-atstart") {
            self.collect_atstart = yesno_to_bool(v.as_str());
        } else if eq_str(key, "dump-instr") {
            self.dump_instr = yesno_to_bool(v.as_str());
        } else if eq_str(key, "dump-line") {
            self.dump_line = yesno_to_bool(v.as_str());
        } else if eq_str(key, "compress-pos") {
            self.compress_pos = yesno_to_bool(v.as_str());
        } else if eq_str(key, "toggle-collect") {
            let ghost before = self.toggle_collect@;
            self.toggle_collect.push(v);
            assert(line_views(self.toggle_collect@) =~= line_views(before).push(value@));
        } else if eq_str(key, "separate-threads") || eq_str(key, "cache-sim") || eq_str(
            key,
            "callgrind-out-file",
        ) || eq_str(key, "compress-strings") || eq_str(key, "combine-dumps") {
        } else {
            let ghost before = self.other@;
            self.other.push(owned(arg.as_str()));
            assert(line_views(self.other@) =~= line_views(before).push(arg@));
        }
    }

    /// Apply one user argument
    fn apply(&mut self, arg: &String)
        ensures
            final(self).view() == raw_arg_step(old(self).view(), arg@),
    {
        let a = to_chars(arg.as_str());
        match strip_prefix_exec(&a, "--") {
            Some(s) => match split_once_exec(&s, '=') {
                Some((key, value)) => {
                    self.apply_option(&key, &value, arg);
                },
                None => {
                    if eq_str(&a, "--verbose") {
                        self.verbose = true;
                    }
                },
            },
            None => {},
        }
    }

    /// The arguments from the user's raw callgrind arguments, applied in order to the defaults
    pub fn from_raw_callgrind_args(args: &RawArgs, verbose: bool) -> (r: CallgrindArgs)
        ensures
            r.view() == raw_args_fold(default_view(verbose), args.args()),
    {
        let ghost av = args.args();
        let mut r = CallgrindArgs::default_with(verbose);
        let mut i: usize = 0;
        assert(av.take(0) =~= Seq::<Seq<char>>::empty());
        while i < args.0.len()
            invariant
                0 <= i <= args.0.len(),
                av == args.args(),
                r.view() == raw_args_fold(default_view(verbose), av.take(i as int)),
            decreases args.0.len() - i,
        {
            r.apply(&args.0[i]);
            assert(av.take(i + 1).drop_last() =~= av.take(i as int));
            assert(av.take(i + 1).last() == args.0@[i as int]@);
            i += 1;
        }
        assert(av.take(args.0.len() as int) =~= av);
        r
    }

    /// Put a toggle in front of the others
    pub fn insert_toggle_collect(&mut self, arg: &str)
        ensures
            final(self).view() == (CallgrindArgsView {
                toggle_collect: seq![arg@] + old(self).view().toggle_collect,
                ..old(self).view()
            }),
    {
        let ghost before = self.toggle_collect@;
        self.toggle_collect.insert(0, owned(arg));
        assert(line_views(self.toggle_collect@) =~= seq![arg@] + line_views(before));
    }

    /// Set the output file
    pub fn set_output_file(&mut self, arg: &str)
        ensures
            final(self).view() == (CallgrindArgsView { callgrind_out_file: Some(arg@), ..old(self).view() }),
    {
        self.callgrind_out_file = Some(owned(arg));
    }

    /// Set whether callgrind collects from the start
    pub fn set_collect_atstart(&mut self, value: bool)
        ensures
            final(self).view() == (CallgrindArgsView { collect_atstart: value, ..old(self).view() }),
    {
        self.collect_atstart = value;
    }

    /// The arguments as callgrind takes them: the options with their values, `--verbose`, the
    /// toggles, the output file and the other options.
    pub fn to_vec(&self) -> (r: Vec<String>)
        ensures
            line_views(r@) == args_list(self.view()),
    {
        let mut args: Vec<String> = Vec::new();
        args.push(option("--I1=", self.i1.as_str()));
        args.push(option("--D1=", self.d1.as_str()));
        args.push(option("--LL=", self.ll.as_str()));
        args.push(option("--cache-sim=", bool_to_yesno(self.cache_sim).as_str()));
        args.push(option("--collect-atstart=", bool_to_yesno(self.collect_atstart).as_str()));
        args.push(option("--compress-strings=", bool_to_yesno(self.compress_strings).as_str()));
        args.push(option("--compress-pos=", bool_to_yesno(self.compress_pos).as_str()));
        args.push(option("--dump-line=", bool_to_yesno(self.dump_line).as_str()));
        args.push(option("--dump-instr=", bool_to_yesno(self.dump_instr).as_str()));
        args.push(option("--combine-dumps=", bool_to_yesno(self.combine_dumps).as_str()));
        let ghost head = line_views(args@);
        let ghost a = self.view();
        assert(head =~= seq![
            "--I1="@ + a.i1,
            "--D1="@ + a.d1,
            "--LL="@ + a.ll,
            "--cache-sim="@ + yesno_text(a.cache_sim),
            "--collect-atstart="@ + yesno_text(a.collect_atstart),
            "--compress-strings="@ + yesno_text(a.compress_strings),
            "--compress-pos="@ + yesno_text(a.compress_pos),
            "--dump-line="@ + yesno_text(a.dump_line),
            "--dump-instr="@ + yesno_text(a.dump_instr),
            "--combine-dumps="@ + yesno_text(a.combine_dumps),
        ]);
        if self.verbose {
            args.push(owned("--verbose"));
        }
        let ghost with_verbose = line_views(args@);
        assert(with_verbose =~= head + (if a.verbose {
            seq!["--verbose"@]
        } else {
            Seq::<Seq<char>>::empty()
        }));
        let mut i: usize = 0;
        while i < self.toggle_collect.len()
            invariant
                0 <= i <= self.toggle_collect.len(),
                line_views(args@) == with_verbose + line_views(self.toggle_collect@).take(i as int).map_values(|s: Seq<char>| "--toggle-collect="@ + s),
            decreases self.toggle_collect.len() - i,
        {
            let ghost before = line_views(args@);
            args.push(option("--toggle-collect=", self.toggle_collect[i].as_str()));
            assert(line_views(self.toggle_collect@).take(i + 1).map_values(|s: Seq<char>| "--toggle-collect="@ + s)
                =~= line_views(self.toggle_collect@).take(i as int).map_values(|s: Seq<char>| "--toggle-collect="@ + s).push("--toggle-collect="@ + self.toggle_collect@[i as int]@));
            assert(line_views(args@) =~= before.push("--toggle-collect="@ + self.toggle_collect@[i as int]@));
            i += 1;
        }
        assert(line_views(self.toggle_collect@).take(self.toggle_collect.len() as int) =~= line_views(self.toggle_collect@));
        let ghost with_toggles = line_views(args@);
        match &self.callgrind_out_file {
            Some(f) => {
                args.push(option("--callgrind-out-file=", f.as_str()));
            },
            None => {},
        }
        let ghost with_out = line_views(args@);
        assert(with_out =~= with_toggles + match a.callgrind_out_file {
            Some(f) => seq!["--callgrind-out-file="@ + f],
            None => Seq::<Seq<char>>::empty(),
        });
        let mut j: usize = 0;
        while j < self.other.len()
            invariant
                0 <= j <= self.other.len(),
                line_views(args@) == with_out + line_views(self.other@).take(j as int),
            decreases self.other.len() - j,
        {
            let ghost before = line_views(args@);
            args.push(owned(self.other[j].as_str()));
            assert(line_views(args@) =~= before.push(self.other@[j as int]@));
            assert(line_views(self.other@).take(j + 1) =~= line_views(self.other@).take(j as int).push(self.other@[j as int]@));
            j += 1;
        }
        assert(line_views(self.other@).take(self.other.len() as int) =~= line_views(self.other@));
        assert(line_views(args@) =~= args_list(self.view()));
        args
    }
}

/// `name` followed by `value`
fn option(name: &str, value: &str) -> (r: String)
    ensures
        r@ == name@ + value@,
{
    let mut v = to_chars(name);
    append_str(&mut v, value);
    from_chars(&v)
}

/// The arguments as callgrind takes them.
pub open spec fn args_list(a: CallgrindArgsView) -> Seq<Seq<char>> {
    seq![
        "--I1="@ + a.i1,
        "--D1="@ + a.d1,
        "--LL="@ + a.ll,
        "--cache-sim="@ + yesno_text(a.cache_sim),
        "--collect-atstart="@ + yesno_text(a.collect_atstart),
        "--compress-strings="@ + yesno_text(a.compress_strings),
        "--compress-pos="@ + yesno_text(a.compress_pos),
        "--dump-line="@ + yesno_text(a.dump_line),
        "--dump-instr="@ + yesno_text(a.dump_instr),
        "--combine-dumps="@ + yesno_text(a.combine_dumps),
    ] + (if a.verbose {
        seq!["--verbose"@]
    } else {
        Seq::empty()
    }) + a.toggle_collect.map_values(|s: Seq<char>| "--toggle-collect="@ + s) + match a.callgrind_out_file {
        Some(f) => seq!["--callgrind-out-file="@ + f],
        None => Seq::empty(),
    } + a.other
}

/// The options that are taken from the user's arguments: the cache sizes and the yes/no
/// options of the collection at the start, the dumps and the compression of positions.
pub open spec fn taken_key(key: Seq<char>) -> bool {
    ||| key == "I1"@ || key == "D1"@ || key == "LL"@
    ||| key == "collect-atstart"@ || key == "dump-instr"@ || key == "dump-line"@ || key == "compress-pos"@
}

/// The value that the arguments hold for the taken option `key`, as callgrind gets it.
pub open spec fn option_text(a: CallgrindArgsView, key: Seq<char>) -> Seq<char> {
    if key == "I1"@ {
        a.i1
    } else if key == "D1"@ {
        a.d1
    } else if key == "LL"@ {
        a.ll
    } else if key == "collect-atstart"@ {
        yesno_text(a.collect_atstart)
    } else if key == "dump-instr"@ {
        yesno_text(a.dump_instr)
    } else if key == "dump-line"@ {
        yesno_text(a.dump_line)
    } else {
        yesno_text(a.compress_pos)
    }
}

/// What the user's value `v` of the taken option `key` becomes: a cache size as it is; for a
/// yes/no option `yes` where `v` is `yes` around white space, else `no`.
pub open spec fn user_value(key: Seq<char>, v: Seq<char>) -> Seq<char> {
    if key == "I1"@ || key == "D1"@ || key == "LL"@ {
        v
    } else if trim(v) == "yes"@ {
        "yes"@
    } else {
        "no"@
    }
}

/// The separators of an option argument, `--` and `=`.
proof fn lemma_option_separators()
    ensures
        "--"@ =~= seq!['-', '-'],
        "="@ =~= seq!['='],
{
    reveal_strlit("--");
    reveal_strlit("=");
}

/// No taken option holds a `=` in its key.
proof fn lemma_taken_key_has_no_eq(key: Seq<char>)
    requires
        taken_key(key),
    ensures
        !key.contains('='),
{
    if key == "I1"@ {
        reveal_strlit("I1");
        assert(key =~= seq!['I', '1']);
    } else if key == "D1"@ {
        reveal_strlit("D1");
        assert(key =~= seq!['D', '1']);
    } else if key == "LL"@ {
        reveal_strlit("LL");
        assert(key =~= seq!['L', 'L']);
    } else if key == "collect-atstart"@ {
        reveal_strlit("collect-atstart");
        assert(key =~= seq!['c', 'o', 'l', 'l', 'e', 'c', 't', '-', 'a', 't', 's', 't', 'a', 'r', 't']);
    } else if key == "dump-instr"@ {
        reveal_strlit("dump-instr");
        assert(key =~= seq!['d', 'u', 'm', 'p', '-', 'i', 'n', 's', 't', 'r']);
    } else if key == "dump-line"@ {
        reveal_strlit("dump-line");
        assert(key =~= seq!['d', 'u', 'm', 'p', '-', 'l', 'i', 'n', 'e']);
    } else {
        reveal_strlit("compress-pos");
        assert(key =~= seq!['c', 'o', 'm', 'p', 'r', 'e', 's', 's', '-', 'p', 'o', 's']);
    }
}

/// The argument `--key=value` of a taken option is read as that key and that value.
proof fn lemma_option_parse(key: Seq<char>, v: Seq<char>)
    requires
        taken_key(key),
    ensures
        strip_prefix("--"@ + key + "="@ + v, "--"@) == Some(key + "="@ + v),
        split_once(key + "="@ + v, '=') == Some((key, v)),
{
    lemma_option_separators();
    lemma_taken_key_has_no_eq(key);
    let arg = "--"@ + key + "="@ + v;
    assert("--"@.is_prefix_of(arg));
    assert(arg.skip(2) =~= key + "="@ + v);
    let s = key + "="@ + v;
    assert(s[key.len() as int] == '=');
    lemma_find_char_bounds(s, '=');
    let i = find_char(s, '=').unwrap();
    if i < key.len() {
        assert(s[i] == key[i]);
        assert(key.contains('='));
    }
    assert(s.take(key.len() as int) =~= key);
    assert(s.skip(key.len() + 1int) =~= v);
}

/// An argument that is not `--key=...` leaves the taken option `key` as it was.
proof fn lemma_step_keeps_option(a: CallgrindArgsView, arg: Seq<char>, key: Seq<char>)
    requires
        taken_key(key),
        !("--"@ + key + "="@).is_prefix_of(arg),
    ensures
        option_text(raw_arg_step(a, arg), key) == option_text(a, key),
{
    lemma_option_separators();
    if let Some(s) = strip_prefix(arg, "--"@) {
        if let Some((k, val)) = split_once(s, '=') {
            lemma_find_char_bounds(s, '=');
            let i = find_char(s, '=').unwrap();
            assert(s.take(i) == k);
            assert(s.skip(i + 1) == val);
            assert(s =~= k + "="@ + val);
            assert(arg =~= "--"@ + s);
            if k == key {
                assert(("--"@ + key + "="@) =~= arg.take(key.len() + 3int));
                assert(("--"@ + key + "="@).is_prefix_of(arg));
            }
            assert(k != key);
        }
    }
}

/// The last user argument `--key=v` of a taken option decides it: the arguments hold the
/// user's value (a cache size as given, a yes/no option `yes` exactly where `v` is `yes`), and
/// the command line for callgrind holds `--key=` with that value.
pub proof fn lemma_last_user_option_wins(a: CallgrindArgsView, args: Seq<Seq<char>>, key: Seq<char>, v: Seq<char>, j: int)
    requires
        taken_key(key),
        0 <= j < args.len(),
        args[j] == "--"@ + key + "="@ + v,
        forall|k: int| j < k < args.len() ==> !("--"@ + key + "="@).is_prefix_of(#[trigger] args[k]),
    ensures
        option_text(raw_args_fold(a, args), key) == user_value(key, v),
        args_list(raw_args_fold(a, args)).contains("--"@ + key + "="@ + user_value(key, v)),
    decreases args.len(),
{
    let b = raw_args_fold(a, args.drop_last());
    if j == args.len() - 1 {
        lemma_option_parse(key, v);
        assert(raw_args_fold(a, args) == raw_arg_step(b, args[j]));
    } else {
        let p = args.drop_last();
        assert forall|k: int| j < k < p.len() implies !("--"@ + key + "="@).is_prefix_of(#[trigger] p[k]) by {
            assert(p[k] == args[k]);
        }
        lemma_last_user_option_wins(a, p, key, v, j);
        lemma_step_keeps_option(b, args.last(), key);
    }
    lemma_args_list_holds(raw_args_fold(a, args), key);
}

/// The command line for callgrind holds `--key=` and the value of each taken option.
proof fn lemma_args_list_holds(a: CallgrindArgsView, key: Seq<char>)
    requires
        taken_key(key),
    ensures
        args_list(a).contains("--"@ + key + "="@ + option_text(a, key)),
{
    lemma_option_separators();
    let l = args_list(a);
    let want = "--"@ + key + "="@ + option_text(a, key);
    if key == "I1"@ {
        reveal_strlit("I1");
        reveal_strlit("--I1=");
        assert(l[0] =~= want);
    } else if key == "D1"@ {
        reveal_strlit("D1");
        reveal_strlit("--D1=");
        assert(l[1] =~= want);
    } else if key == "LL"@ {
        reveal_strlit("LL");
        reveal_strlit("--LL=");
        assert(l[2] =~= want);
    } else if key == "collect-atstart"@ {
        reveal_strlit("collect-atstart");
        reveal_strlit("--collect-atstart=");
        assert(l[4] =~= want);
    } else if key == "dump-instr"@ {
        reveal_strlit("dump-instr");
        reveal_strlit("--dump-instr=");
        assert(l[8] =~= want);
    } else if key == "dump-line"@ {
        reveal_strlit("dump-line");
        reveal_strlit("--dump-line=");
        assert(l[7] =~= want);
    } else {
        reveal_strlit("compress-pos");
        reveal_strlit("--compress-pos=");
        assert(l[6] =~= want);
    }
}

/// The arguments of a run of `a` with the entry point and the output file.
pub open spec fn run_view(a: CallgrindArgsView, entry_point: Option<&str>, output_file: &str) -> CallgrindArgsView {
    match entry_point {
        Some(e) => CallgrindArgsView {
            collect_atstart: false,
            toggle_collect: seq![e@] + a.toggle_collect,
            callgrind_out_file: Some(output_file@),
            ..a
        },
        None => CallgrindArgsView {
            collect_atstart: true,
            callgrind_out_file: Some(output_file@),
            ..a
        },
    }
}

/// The arguments of a run: with an entry point callgrind does not collect at the start and the
/// entry point is the first toggle, otherwise it collects from the start; the output goes to
/// `output_file`.
pub fn run_args(args: CallgrindArgs, entry_point: Option<&str>, output_file: &str) -> (r: Vec<
    String,
>)
    ensures
        line_views(r@) == args_list(run_view(args.view(), entry_point, output_file)),
{
    let mut args = args;
    match entry_point {
        Some(e) => {
            args.set_collect_atstart(false);
            args.insert_toggle_collect(e);
        },
        None => {
            args.set_collect_atstart(true);
        },
    }
    args.set_output_file(output_file);
    args.to_vec()
}

/// The way a benchmark's exit code did not meet the expectation
#[derive(Debug, Clone, Copy, PartialEq, Eq, Structural)]
pub enum ExitError {
    /// Expected to exit with the code but it succeeded
    SucceededButExpectedCode(i32),
    /// Expected to fail but it succeeded
    SucceededButExpectedFailure,
    /// Expected to succeed but it exited with the code
    FailedButExpectedSuccess(i32),
    /// Expected to exit with the first code but it exited with the second
    WrongCode(i32, i32),
    /// Exited with the code, which is no success, without an expectation
    Failed(i32),
}

/// Whether the exit code of a benchmark meets the expectation: without one, or when success is
/// expected, the code must be `0`; a failure is any other code; a code must match exactly.
pub open spec fn exit_ok(code: i32, exit_with: Option<ExitWith>) -> bool {
    match exit_with {
        None | Some(ExitWith::Success) => code == 0,
        Some(ExitWith::Failure) => code != 0,
        Some(ExitWith::Code(c)) => code == c,
    }
}

/// An expected exit code is met by that code alone; success (expected or by default) by `0`
/// alone; an expected failure by every code but `0`.
pub proof fn lemma_exit_codes(code: i32, c: i32)
    ensures
        exit_ok(code, Some(ExitWith::Code(c))) <==> code == c,
        exit_ok(code, Some(ExitWith::Success)) <==> code == 0,
        exit_ok(code, None) <==> code == 0,
        exit_ok(code, Some(ExitWith::Failure)) <==> code != 0,
{
}

/// Check the exit code of a benchmark against the expected one
pub fn check_exit(code: i32, exit_with: Option<ExitWith>) -> (r: Result<(), ExitError>)
    ensures
        r is Ok <==> exit_ok(code, exit_with),
        exit_with matches Some(ExitWith::Code(c)) ==> (r is Ok <==> code == c),
        exit_with matches Some(ExitWith::Code(c)) ==> (code != 0 && code != c ==> r == Err::<(), ExitError>(
            ExitError::WrongCode(c, code),
        )),
        exit_with matches Some(ExitWith::Code(c)) ==> (code == 0 && c != 0 ==> r == Err::<(), ExitError>(
            ExitError::SucceededButExpectedCode(c),
        )),
        exit_with == Some(ExitWith::Success) || exit_with is None ==> (r is Ok <==> code == 0),
        exit_with == Some(ExitWith::Failure) ==> (r is Ok <==> code != 0),
        r matches Err(e) ==> match e {
            ExitError::SucceededButExpectedCode(c) => code == 0 && exit_with == Some(ExitWith::Code(c)),
            ExitError::SucceededButExpectedFailure => code == 0 && exit_with == Some(ExitWith::Failure),
            ExitError::FailedButExpectedSuccess(c) => code != 0 && c == code && exit_with == Some(ExitWith::Success),
            ExitError::WrongCode(expected, actual) => code != 0 && actual == code && exit_with == Some(ExitWith::Code(expected)),
            ExitError::Failed(c) => code != 0 && c == code && exit_with is None,
        },
{
    match (code, exit_with) {
        (0i32, None) | (0i32, Some(ExitWith::Success)) => Ok(()),
        (0i32, Some(ExitWith::Code(c))) => {
            if c == 0 {
                Ok(())
            } else {
                Err(ExitError::SucceededButExpectedCode(c))
            }
        },
        (0i32, Some(ExitWith::Failure)) => Err(ExitError::SucceededButExpectedFailure),
        (_, Some(ExitWith::Failure)) => Ok(()),
        (c, Some(ExitWith::Success)) => Err(ExitError::FailedButExpectedSuccess(c)),
        (actual, Some(ExitWith::Code(expected))) => {
            if actual == expected {
                Ok(())
            } else {
                Err(ExitError::WrongCode(expected, actual))
            }
        },
        (c, None) => Err(ExitError::Failed(c)),
    }
}

} // verus!
