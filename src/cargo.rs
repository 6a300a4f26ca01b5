//! The compiler invocations: the arguments of a `cargo build` of one stage,
//! and where the object file it produces lies.
use vstd::prelude::*;
use vstd::string::*;

verus! {

/// The view of a list of strings.
pub open spec fn strs_view(items: Seq<&str>) -> Seq<Seq<char>> {
    items.map_values(|s: &str| s@)
}

/// `items` joined after `name`: `=` before the first, `,` before each other.
pub open spec fn list_flag(name: Seq<char>, items: Seq<Seq<char>>) -> Seq<char>
    decreases items.len(),
{
    if items.len() == 0 {
        name
    } else {
        let k = items.len() - 1;
        list_flag(name, items.drop_last()) + (if k == 0 {
            seq!['=']
        } else {
            seq![',']
        }) + items[k]
    }
}

/// A `cargo build` of one package.
#[derive(Clone, Copy, Debug)]
pub struct CargoBuild<'a> {
    /// Path to cargo.
    pub command: &'a str,
    /// Package to build.
    pub package: &'a str,
    /// The target to build for; none where empty.
    pub target: &'a str,
    /// The profile to build with; the default where empty.
    pub profile: &'a str,
    /// Features to enable.
    pub features: &'a [&'a str],
    /// Whether to keep the package's default features.
    pub default_features: bool,
    /// Further arguments, passed last.
    pub additional_args: &'a [&'a str],
    /// Environment variables to set for cargo, as key and value.
    pub envs: &'a [(&'a str, &'a str)],
    /// The standard-library crates to build from source, if any.
    pub build_std: Option<&'a [&'a str]>,
    /// Features of the standard library built from source; only used with
    /// `build_std`, and only when not empty.
    pub build_std_features: &'a [&'a str],
}

/// The arguments of a `cargo build`: the flags that build the standard library
/// from source, then `build --package`, the target and profile where given,
/// and the further arguments.
pub open spec fn cargo_args(c: CargoBuild) -> Seq<Seq<char>> {
    let std_flags = match c.build_std {
        Some(krates) => seq![list_flag("-Zbuild-std"@, strs_view(krates@))] + if c.build_std_features@.len()
            == 0 {
            Seq::<Seq<char>>::empty()
        } else {
            seq![list_flag("-Zbuild-std-features"@, strs_view(c.build_std_features@))]
        },
        None => Seq::<Seq<char>>::empty(),
    };
    let target = if c.target@.len() == 0 {
        Seq::<Seq<char>>::empty()
    } else {
        seq!["--target"@, c.target@]
    };
    let profile = if c.profile@.len() == 0 {
        Seq::<Seq<char>>::empty()
    } else {
        seq!["--profile"@, c.profile@]
    };
    std_flags + seq!["build"@, "--package"@, c.package@] + target + profile + strs_view(
        c.additional_args@,
    )
}

fn push_str(args: &mut Vec<String>, s: &str)
    ensures
        final(args)@.map_values(|a: String| a@) == old(args)@.map_values(|a: String| a@).push(s@),
{
    args.push(String::from_str(s));
    assert(args@.map_values(|a: String| a@) =~= old(args)@.map_values(|a: String| a@).push(s@));
}

fn push_string(args: &mut Vec<String>, s: String)
    ensures
        final(args)@.map_values(|a: String| a@) == old(args)@.map_values(|a: String| a@).push(s@),
{
    let ghost v = s@;
    args.push(s);
    assert(args@.map_values(|a: String| a@) =~= old(args)@.map_values(|a: String| a@).push(v));
}

/// `name` followed by `items`, as `list_flag` says.
fn list_arg(name: &str, items: &[&str]) -> (r: String)
    ensures
        r@ == list_flag(name@, strs_view(items@)),
{
    let mut s = String::from_str(name);
    let mut k: usize = 0;
    while k < items.len()
        invariant
            k <= items@.len(),
            s@ == list_flag(name@, strs_view(items@.subrange(0, k as int))),
        decreases items@.len() - k,
    {
        proof {
            reveal_strlit("=");
            reveal_strlit(",");
        }
        if k == 0 {
            s.append("=");
        } else {
            s.append(",");
        }
        s.append(items[k]);
        proof {
            let next = strs_view(items@.subrange(0, k + 1));
            assert(next.drop_last() =~= strs_view(items@.subrange(0, k as int)));
            assert(next[k as int] == items@[k as int]@);
        }
        k = k + 1;
    }
    assert(items@.subrange(0, items@.len() as int) =~= items@);
    s
}

impl<'a> CargoBuild<'a> {
    /// A build run by the cargo at `cargo_path`, with nothing else set.
    pub fn new(cargo_path: &'a str) -> (r: CargoBuild<'a>)
        ensures
            r.command == cargo_path,
            r.package@.len() == 0,
            r.target@.len() == 0,
            r.profile@.len() == 0,
            r.features@.len() == 0,
            r.default_features,
            r.additional_args@.len() == 0,
            r.envs@.len() == 0,
            r.build_std is None,
            r.build_std_features@.len() == 0,
    {
        proof {
            reveal_strlit("");
        }
        CargoBuild {
            command: cargo_path,
            package: "",
            target: "",
            profile: "",
            features: &[],
            default_features: true,
            additional_args: &[],
            envs: &[],
            build_std: None,
            build_std_features: &[],
        }
    }

    /// The arguments to run cargo with.
    pub fn args(&self) -> (r: Vec<String>)
        ensures
            r@.map_values(|a: String| a@) == cargo_args(*self),
    {
        proof {
            reveal_strlit("-Zbuild-std");
            reveal_strlit("-Zbuild-std-features");
        }
        let mut args: Vec<String> = Vec::new();
        match self.build_std {
            Some(krates) => {
                push_string(&mut args, list_arg("-Zbuild-std", krates));
                if self.build_std_features.len() != 0 {
                    push_string(&mut args, list_arg("-Zbuild-std-features", self.build_std_features));
                }
            },
            None => {},
        }
        let ghost std_part = args@.map_values(|a: String| a@);
        push_str(&mut args, "build");
        push_str(&mut args, "--package");
        push_str(&mut args, self.package);
        if !self.target.is_empty() {
            push_str(&mut args, "--target");
            push_str(&mut args, self.target);
        }
        if !self.profile.is_empty() {
            push_str(&mut args, "--profile");
            push_str(&mut args, self.profile);
        }
        let ghost before = args@.map_values(|a: String| a@);
        assert(before =~= std_part + seq!["build"@, "--package"@, self.package@] + (if self.target@.len() == 0 {
            Seq::<Seq<char>>::empty()
        } else {
            seq!["--target"@, self.target@]
        }) + (if self.profile@.len() == 0 {
            Seq::<Seq<char>>::empty()
        } else {
            seq!["--profile"@, self.profile@]
        }));
        let mut k: usize = 0;
        while k < self.additional_args.len()
            invariant
                k <= self.additional_args@.len(),
                args@.map_values(|a: String| a@) == before + strs_view(
                    self.additional_args@.subrange(0, k as int),
                ),
            decreases self.additional_args@.len() - k,
        {
            push_str(&mut args, self.additional_args[k]);
            k = k + 1;
            assert(strs_view(self.additional_args@.subrange(0, k as int)) =~= strs_view(
                self.additional_args@.subrange(0, k - 1),
            ).push(self.additional_args@[k - 1]@));
        }
        assert(self.additional_args@.subrange(0, self.additional_args@.len() as int)
            =~= self.additional_args@);
        assert(args@.map_values(|a: String| a@) =~= cargo_args(*self));
        args
    }
}

/// The path, as its parts below the target directory, of a file built for
/// `target` with `profile`: the target's directory where one is given, the
/// profile's directory (`debug` where none is given), then the file where one
/// is given. Empty names count as not given.
pub open spec fn target_path_parts(
    target: Option<Seq<char>>,
    profile: Option<Seq<char>>,
    file: Option<Seq<char>>,
) -> Seq<Seq<char>> {
    let t = match target {
        Some(t) => if t.len() == 0 {
            Seq::<Seq<char>>::empty()
        } else {
            seq![t]
        },
        None => Seq::<Seq<char>>::empty(),
    };
    let p = match profile {
        Some(p) => if p.len() == 0 {
            "debug"@
        } else {
            p
        },
        None => "debug"@,
    };
    let f = match file {
        Some(f) => if f.len() == 0 {
            Seq::<Seq<char>>::empty()
        } else {
            seq![f]
        },
        None => Seq::<Seq<char>>::empty(),
    };
    t + seq![p] + f
}

/// The view of an optional string.
pub open spec fn opt_view(s: Option<&str>) -> Option<Seq<char>> {
    match s {
        Some(s) => Some(s@),
        None => None,
    }
}

/// The parts, below the target directory, of the path of a file built for
/// `target` with `profile`, as `target_path_parts` says.
pub fn target_path(target: Option<&str>, profile: Option<&str>, file: Option<&str>) -> (r: Vec<
    String,
>)
    ensures
        r@.map_values(|a: String| a@) == target_path_parts(
            opt_view(target),
            opt_view(profile),
            opt_view(file),
        ),
{
    proof {
        reveal_strlit("debug");
    }
    let mut parts: Vec<String> = Vec::new();
    match target {
        Some(t) => if !t.is_empty() {
            push_str(&mut parts, t);
        },
        None => {},
    }
    let p = match profile {
        Some(p) => if !p.is_empty() {
            p
        } else {
            "debug"
        },
        None => "debug",
    };
    push_str(&mut parts, p);
    match file {
        Some(f) => if !f.is_empty() {
            push_str(&mut parts, f);
        },
        None => {},
    }
    assert(parts@.map_values(|a: String| a@) =~= target_path_parts(
        opt_view(target),
        opt_view(profile),
        opt_view(file),
    ));
    parts
}

/// An `objcopy` run that converts an object file.
#[derive(Clone, Copy, Debug)]
pub struct ObjCopy<'a> {
    /// Path to objcopy.
    pub command: &'a str,
    /// Path to the input file.
    pub input: &'a str,
    /// Format of the input file, if given.
    pub input_format: Option<&'a str>,
    /// Path to the output file.
    pub output: &'a str,
    /// Format of the output file, if given.
    pub output_format: Option<&'a str>,
}

/// The arguments of an objcopy run: the input format and the output format
/// where given, then the input and output paths.
pub open spec fn objcopy_args(o: ObjCopy) -> Seq<Seq<char>> {
    let i = match o.input_format {
        Some(f) => seq!["-I"@, f@],
        None => Seq::<Seq<char>>::empty(),
    };
    let out = match o.output_format {
        Some(f) => seq!["-O"@, f@],
        None => Seq::<Seq<char>>::empty(),
    };
    i + out + seq![o.input@, o.output@]
}

impl<'a> ObjCopy<'a> {
    /// A run of the objcopy at `command`, with nothing else set.
    pub fn new(command: &'a str) -> (r: ObjCopy<'a>)
        ensures
            r.command == command,
            r.input@.len() == 0,
            r.input_format is None,
            r.output@.len() == 0,
            r.output_format is None,
    {
        proof {
            reveal_strlit("");
        }
        ObjCopy { command, input: "", input_format: None, output: "", output_format: None }
    }

    /// The arguments to run objcopy with.
    pub fn args(&self) -> (r: Vec<String>)
        ensures
            r@.map_values(|a: String| a@) == objcopy_args(*self),
    {
        let mut args: Vec<String> = Vec::new();
        match self.input_format {
            Some(f) => {
                push_str(&mut args, "-I");
                push_str(&mut args, f);
            },
            None => {},
        }
        match self.output_format {
            Some(f) => {
                push_str(&mut args, "-O");
                push_str(&mut args, f);
            },
            None => {},
        }
        push_str(&mut args, self.input);
        push_str(&mut args, self.output);
        assert(args@.map_values(|a: String| a@) =~= objcopy_args(*self));
        args
    }
}

} // verus!
