//! Command-line options of the development tools, and where they find the
//! application's own store.
use vstd::prelude::*;
use vstd::string::*;

use crate::numerals::{parse_unsigned, unsigned_value};
use crate::path::{absolute, joined};
use crate::text::{chars_of, same};

verus! {

/// Parsed options of the evaluation harness.
#[derive(Debug)]
pub struct Options {
    pub db: Option<String>,
    pub library: Option<String>,
    pub filter: Option<String>,
    pub sweep: bool,
    pub trace: bool,
    pub help: bool,
}

/// What parsed options hold.
#[verifier::ext_equal]
pub struct OptionsView {
    pub db: Option<Seq<char>>,
    pub library: Option<Seq<char>>,
    pub filter: Option<Seq<char>>,
    pub sweep: bool,
    pub trace: bool,
    pub help: bool,
}

impl DeepView for Options {
    type V = OptionsView;

    open spec fn deep_view(&self) -> OptionsView {
        OptionsView {
            db: self.db.deep_view(),
            library: self.library.deep_view(),
            filter: self.filter.deep_view(),
            sweep: self.sweep,
            trace: self.trace,
            help: self.help,
        }
    }
}

/// Whether an argument looks like a flag.
pub open spec fn is_flag(a: Seq<char>) -> bool {
    a.len() >= 2 && a[0] == '-' && a[1] == '-'
}

/// What options and the arguments behind them come to, or the error they give.
pub open spec fn parsed(args: Seq<Seq<char>>, o: OptionsView) -> Result<OptionsView, Seq<char>>
    decreases args.len(),
{
    if args.len() == 0 {
        Ok(o)
    } else {
        let a = args[0];
        if a == "-h"@ || a == "--help"@ {
            parsed(args.skip(1), OptionsView { help: true, ..o })
        } else if a == "--sweep"@ {
            parsed(args.skip(1), OptionsView { sweep: true, ..o })
        } else if a == "--trace"@ {
            parsed(args.skip(1), OptionsView { trace: true, ..o })
        } else if a == "--db"@ {
            if args.len() < 2 {
                Err("--db needs a path"@)
            } else {
                parsed(args.skip(2), OptionsView { db: Some(args[1]), ..o })
            }
        } else if a == "--library"@ {
            if args.len() < 2 {
                Err("--library needs local|shared"@)
            } else if args[1] != "local"@ && args[1] != "shared"@ {
                Err("--library must be local or shared, not "@ + args[1])
            } else {
                parsed(args.skip(2), OptionsView { library: Some(args[1]), ..o })
            }
        } else if is_flag(a) {
            Err("unknown flag "@ + a)
        } else if o.filter is Some {
            Err("give at most one recording filter"@)
        } else {
            parsed(args.skip(1), OptionsView { filter: Some(a), ..o })
        }
    }
}

/// Options before any argument.
pub open spec fn no_options() -> OptionsView {
    OptionsView {
        db: None,
        library: None,
        filter: None,
        sweep: false,
        trace: false,
        help: false,
    }
}

/// The error text for an argument.
fn complain(text: &str, arg: &str) -> (r: String)
    ensures
        r@ == text@ + arg@,
{
    let mut out = text.to_owned();
    out.append(arg);
    out
}

/// Whether an argument looks like a flag.
fn looks_like_flag(a: &str) -> (r: bool)
    ensures
        r == is_flag(a@),
{
    let v = chars_of(a);
    v.len() >= 2 && v[0] == '-' && v[1] == '-'
}

impl Options {
    /// Parse the harness's arguments. Unknown flags and a missing flag value are
    /// errors, so a typo cannot silently score the wrong thing.
    pub fn parse(args: &Vec<String>) -> (r: Result<Options, String>)
        ensures
            match (r, parsed(args.deep_view(), no_options())) {
                (Ok(o), Ok(v)) => o.deep_view() == v,
                (Err(e), Err(m)) => e@ == m,
                _ => false,
            },
    {
        let ghost all = args.deep_view();
        let mut o = Options {
            db: None,
            library: None,
            filter: None,
            sweep: false,
            trace: false,
            help: false,
        };
        let mut i: usize = 0;
        assert(all.skip(0) =~= all);
        while i < args.len()
            invariant
                i <= args@.len(),
                all == args.deep_view(),
                parsed(all, no_options()) == parsed(all.skip(i as int), o.deep_view()),
            decreases args@.len() - i,
        {
            let a = &args[i];
            let ghost rest = all.skip(i as int);
            proof {
                assert(rest[0] == a@);
                assert(rest.skip(1) =~= all.skip(i + 1));
                assert(i + 1 < all.len() ==> rest[1] == args@[i + 1]@);
                assert(i + 1 < all.len() ==> rest.skip(2) =~= all.skip(i + 2));
            }
            if same(a, "-h") || same(a, "--help") {
                o.help = true;
                i += 1;
            } else if same(a, "--sweep") {
                o.sweep = true;
                i += 1;
            } else if same(a, "--trace") {
                o.trace = true;
                i += 1;
            } else if same(a, "--db") {
                if i + 1 >= args.len() {
                    return Err("--db needs a path".to_owned());
                }
                o.db = Some(args[i + 1].clone());
                i += 2;
            } else if same(a, "--library") {
                if i + 1 >= args.len() {
                    return Err("--library needs local|shared".to_owned());
                }
                if !same(&args[i + 1], "local") && !same(&args[i + 1], "shared") {
                    return Err(complain("--library must be local or shared, not ", &args[i + 1]));
                }
                o.library = Some(args[i + 1].clone());
                i += 2;
            } else if looks_like_flag(a) {
                return Err(complain("unknown flag ", a));
            } else if o.filter.is_some() {
                return Err("give at most one recording filter".to_owned());
            } else {
                o.filter = Some(a.clone());
                i += 1;
            }
        }
        assert(all.skip(i as int) =~= Seq::empty());
        Ok(o)
    }
}

/// Parsed options of the detection dump.
#[derive(Debug)]
pub struct DumpOptions {
    pub db: Option<String>,
    pub library: Option<String>,
    pub file: Option<String>,
    pub filter: Option<String>,
    /// How many samples to print in full; all when `None`.
    pub limit: Option<usize>,
    pub help: bool,
}

/// What parsed options hold.
#[verifier::ext_equal]
pub struct DumpView {
    pub db: Option<Seq<char>>,
    pub library: Option<Seq<char>>,
    pub file: Option<Seq<char>>,
    pub filter: Option<Seq<char>>,
    pub limit: Option<int>,
    pub help: bool,
}

impl DeepView for DumpOptions {
    type V = DumpView;

    open spec fn deep_view(&self) -> DumpView {
        DumpView {
            db: self.db.deep_view(),
            library: self.library.deep_view(),
            file: self.file.deep_view(),
            filter: self.filter.deep_view(),
            limit: match self.limit {
                Some(n) => Some(n as int),
                None => None,
            },
            help: self.help,
        }
    }
}

/// What options and the arguments behind them come to, or the error they give.
pub open spec fn dump_parsed(args: Seq<Seq<char>>, o: DumpView) -> Result<DumpView, Seq<char>>
    decreases args.len(),
{
    if args.len() == 0 {
        Ok(o)
    } else {
        let a = args[0];
        if a == "-h"@ || a == "--help"@ {
            dump_parsed(args.skip(1), DumpView { help: true, ..o })
        } else if a == "--db"@ {
            if args.len() < 2 {
                Err("--db needs a path"@)
            } else {
                dump_parsed(args.skip(2), DumpView { db: Some(args[1]), ..o })
            }
        } else if a == "--file"@ {
            if args.len() < 2 {
                Err("--file needs a path"@)
            } else {
                dump_parsed(args.skip(2), DumpView { file: Some(args[1]), ..o })
            }
        } else if a == "--library"@ {
            if args.len() < 2 {
                Err("--library needs local|shared"@)
            } else if args[1] != "local"@ && args[1] != "shared"@ {
                Err("--library must be local or shared, not "@ + args[1])
            } else {
                dump_parsed(args.skip(2), DumpView { library: Some(args[1]), ..o })
            }
        } else if a == "--limit"@ {
            if args.len() < 2 {
                Err("--limit needs a number"@)
            } else {
                match unsigned_value(args[1], usize::MAX as int) {
                    Some(n) => dump_parsed(
                        args.skip(2),
                        DumpView {
                            limit: if n == 0 {
                                None
                            } else {
                                Some(n)
                            },
                            ..o
                        },
                    ),
                    None => Err("--limit not a number: "@ + args[1]),
                }
            }
        } else if is_flag(a) {
            Err("unknown flag "@ + a)
        } else if o.filter is Some {
            Err("give at most one recording filter"@)
        } else {
            dump_parsed(args.skip(1), DumpView { filter: Some(a), ..o })
        }
    }
}

/// Options before any argument.
pub open spec fn no_dump_options() -> DumpView {
    DumpView { db: None, library: None, file: None, filter: None, limit: None, help: false }
}

impl DumpOptions {
    /// Parse the dump's arguments; a limit of 0 means all samples.
    pub fn parse(args: &Vec<String>) -> (r: Result<DumpOptions, String>)
        ensures
            match (r, dump_parsed(args.deep_view(), no_dump_options())) {
                (Ok(o), Ok(v)) => o.deep_view() == v,
                (Err(e), Err(m)) => e@ == m,
                _ => false,
            },
    {
        let ghost all = args.deep_view();
        let mut o = DumpOptions {
            db: None,
            library: None,
            file: None,
            filter: None,
            limit: None,
            help: false,
        };
        let mut i: usize = 0;
        assert(all.skip(0) =~= all);
        while i < args.len()
            invariant
                i <= args@.len(),
                all == args.deep_view(),
                dump_parsed(all, no_dump_options()) == dump_parsed(
                    all.skip(i as int),
                    o.deep_view(),
                ),
            decreases args@.len() - i,
        {
            let a = &args[i];
            let ghost rest = all.skip(i as int);
            proof {
                assert(rest[0] == a@);
                assert(rest.skip(1) =~= all.skip(i + 1));
                assert(i + 1 < all.len() ==> rest[1] == args@[i + 1]@);
                assert(i + 1 < all.len() ==> rest.skip(2) =~= all.skip(i + 2));
            }
            if same(a, "-h") || same(a, "--help") {
                o.help = true;
                i += 1;
            } else if same(a, "--db") {
                if i + 1 >= args.len() {
                    return Err("--db needs a path".to_owned());
                }
                o.db = Some(args[i + 1].clone());
                i += 2;
            } else if same(a, "--file") {
                if i + 1 >= args.len() {
                    return Err("--file needs a path".to_owned());
                }
                o.file = Some(args[i + 1].clone());
                i += 2;
            } else if same(a, "--library") {
                if i + 1 >= args.len() {
                    return Err("--library needs local|shared".to_owned());
                }
                if !same(&args[i + 1], "local") && !same(&args[i + 1], "shared") {
                    return Err(complain("--library must be local or shared, not ", &args[i + 1]));
                }
                o.library = Some(args[i + 1].clone());
                i += 2;
            } else if same(a, "--limit") {
                if i + 1 >= args.len() {
                    return Err("--limit needs a number".to_owned());
                }
                match parse_unsigned(&args[i + 1], usize::MAX as u64) {
                    Some(n) => {
                        o.limit =
                        if n == 0 {
                            None
                        } else {
                            Some(n as usize)
                        };
                    },
                    None => {
                        return Err(complain("--limit not a number: ", &args[i + 1]));
                    },
                }
                i += 2;
            } else if looks_like_flag(a) {
                return Err(complain("unknown flag ", a));
            } else if o.filter.is_some() {
                return Err("give at most one recording filter".to_owned());
            } else {
                o.filter = Some(a.clone());
                i += 1;
            }
        }
        assert(all.skip(i as int) =~= Seq::empty());
        Ok(o)
    }
}

/// The platform's application-data folder: `XDG_DATA_HOME`, or the home folder's
/// `.local/share`.
pub open spec fn data_root(xdg: Option<Seq<char>>, home: Option<Seq<char>>) -> Option<Seq<char>> {
    match xdg {
        Some(x) => Some(x),
        None => match home {
            Some(h) => Some(joined(joined(h, ".local"@), "share"@)),
            None => None,
        },
    }
}

/// The platform's application-data folder, from the two settings that name it.
pub fn app_data_root(xdg: &Option<String>, home: &Option<String>) -> (r: Result<String, String>)
    ensures
        match (r, data_root(xdg.deep_view(), home.deep_view())) {
            (Ok(s), Some(t)) => s@ == t,
            (Err(e), None) => e@ == "cannot resolve the app-data dir; pass --db PATH"@,
            _ => false,
        },
{
    if let Some(x) = xdg {
        return Ok(x.clone());
    }
    match home {
        Some(h) => Ok(absolute(&absolute(h, ".local"), "share")),
        None => Err("cannot resolve the app-data dir; pass --db PATH".to_owned()),
    }
}

/// The application's own store under an application-data folder.
pub fn default_db_path(root: &str) -> (r: String)
    ensures
        r@ == joined(joined(root@, "com.quantumff.voloph"@), "voloph.db"@),
{
    absolute(&absolute(root, "com.quantumff.voloph"), "voloph.db")
}

} // verus!
