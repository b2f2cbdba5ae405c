//! The decision logic of the release steps that shell out to git: which
//! command lines run. Running them is left to the surrounding program.

use vstd::prelude::*;

verus! {

/// The announcement word for a command: what a dry run would do, or what a
/// real run will do.
pub fn will(dry_run: bool) -> (r: &'static str)
    ensures
        dry_run ==> r@ == "WOULD"@,
        !dry_run ==> r@ == "Will"@,
{
    if dry_run {
        "WOULD"
    } else {
        "Will"
    }
}

/// The argument lists as sequences of their texts.
pub open spec fn spec_args(v: Seq<String>) -> Seq<Seq<char>>
    decreases v.len(),
{
    if v.len() == 0 {
        Seq::empty()
    } else {
        spec_args(v.drop_last()).push(v.last()@)
    }
}

/// The arguments of the commit command: `commit -am <message>`, with
/// `--allow-empty` when an empty commit must be possible and `--signoff`
/// when sign-off is requested.
pub fn commit_args(message: &str, empty_commit_possible: bool, signoff: bool) -> (r: Vec<String>)
    ensures
        spec_args(r@) == seq!["commit"@, "-am"@, message@] + (if empty_commit_possible {
            seq!["--allow-empty"@]
        } else {
            Seq::<Seq<char>>::empty()
        }) + (if signoff {
            seq!["--signoff"@]
        } else {
            Seq::<Seq<char>>::empty()
        }),
{
    let mut r: Vec<String> = Vec::new();
    let ghost s0 = r@;
    r.push(String::from_str("commit"));
    proof {
        assert(spec_args(s0) =~= Seq::<Seq<char>>::empty());
        assert(r@.drop_last() =~= s0);
        assert(spec_args(r@) =~= seq!["commit"@]);
    }
    let ghost s1 = r@;
    r.push(String::from_str("-am"));
    proof {
        assert(r@.drop_last() =~= s1);
        assert(spec_args(r@) =~= seq!["commit"@, "-am"@]);
    }
    let ghost s2 = r@;
    r.push(String::from_str(message));
    proof {
        assert(r@.drop_last() =~= s2);
        assert(spec_args(r@) =~= seq!["commit"@, "-am"@, message@]);
    }
    if empty_commit_possible {
        let ghost s3 = r@;
        r.push(String::from_str("--allow-empty"));
        proof {
            assert(r@.drop_last() =~= s3);
            assert(spec_args(r@) =~= spec_args(s3).push("--allow-empty"@));
        }
    }
    if signoff {
        let ghost s4 = r@;
        r.push(String::from_str("--signoff"));
        proof {
            assert(r@.drop_last() =~= s4);
            assert(spec_args(r@) =~= spec_args(s4).push("--signoff"@));
        }
    }
    proof {
        assert(spec_args(r@) =~= seq!["commit"@, "-am"@, message@] + (if empty_commit_possible {
            seq!["--allow-empty"@]
        } else {
            Seq::<Seq<char>>::empty()
        }) + (if signoff {
            seq!["--signoff"@]
        } else {
            Seq::<Seq<char>>::empty()
        }));
    }
    r
}

/// The arguments of the push command: `push <remote> HEAD`, then every tag
/// name in order.
pub fn push_args(remote: &str, tag_names: &Vec<String>) -> (r: Vec<String>)
    ensures
        spec_args(r@) == seq!["push"@, remote@, "HEAD"@] + spec_args(tag_names@),
{
    let mut r: Vec<String> = Vec::new();
    let ghost s0 = r@;
    r.push(String::from_str("push"));
    proof {
        assert(spec_args(s0) =~= Seq::<Seq<char>>::empty());
        assert(r@.drop_last() =~= s0);
        assert(spec_args(r@) =~= seq!["push"@]);
    }
    let ghost s1 = r@;
    r.push(String::from_str(remote));
    proof {
        assert(r@.drop_last() =~= s1);
        assert(spec_args(r@) =~= seq!["push"@, remote@]);
    }
    let ghost s2 = r@;
    r.push(String::from_str("HEAD"));
    proof {
        assert(r@.drop_last() =~= s2);
        assert(spec_args(r@) =~= seq!["push"@, remote@, "HEAD"@]);
        assert(tag_names@.subrange(0, 0) =~= Seq::<String>::empty());
        assert(spec_args(r@) =~= seq!["push"@, remote@, "HEAD"@] + spec_args(
            tag_names@.subrange(0, 0),
        ));
    }
    let n = tag_names.len();
    let mut k: usize = 0;
    while k < n
        invariant
            k <= n == tag_names@.len(),
            spec_args(r@) == seq!["push"@, remote@, "HEAD"@] + spec_args(
                tag_names@.subrange(0, k as int),
            ),
        decreases n - k,
    {
        let ghost r0 = r@;
        let t = String::from_str(tag_names[k].as_str());
        proof {
            assert(t@ == tag_names@[k as int]@);
        }
        r.push(t);
        k += 1;
        proof {
            let pre = tag_names@.subrange(0, k as int);
            assert(pre.drop_last() =~= tag_names@.subrange(0, k - 1));
            assert(pre.last() == tag_names@[k - 1]);
            assert(r@.drop_last() =~= r0);
            assert(spec_args(r@) =~= spec_args(r0).push(t@));
            assert(spec_args(r@) =~= seq!["push"@, remote@, "HEAD"@] + spec_args(pre));
        }
    }
    proof {
        assert(tag_names@.subrange(0, n as int) =~= tag_names@);
    }
    r
}

/// The full reference name of a tag.
pub fn tag_ref_name(tag_name: &str) -> (r: String)
    ensures
        r@ == "refs/tags/"@ + tag_name@,
{
    let mut r = String::from_str("refs/tags/");
    r.append(tag_name);
    r
}

/// The tag name for one package's release: `<package>-v<version>`.
pub fn version_tag_name(package: &str, new_version: &str) -> (r: String)
    ensures
        r@ == package@ + "-v"@ + new_version@,
{
    let mut r = String::from_str(package);
    r.append("-v");
    r.append(new_version);
    r
}

/// The arguments of the tag command: an annotated tag carrying the message
/// when one is given, a lightweight tag otherwise.
pub fn tag_args(tag_name: &str, tag_message: &Option<String>) -> (r: Vec<String>)
    ensures
        spec_args(r@) == (match tag_message {
            Some(m) => seq!["tag"@, "-a"@, tag_name@, "-m"@, m@],
            None => seq!["tag"@, tag_name@],
        }),
{
    let mut r: Vec<String> = Vec::new();
    let ghost s0 = r@;
    r.push(String::from_str("tag"));
    proof {
        assert(spec_args(s0) =~= Seq::<Seq<char>>::empty());
        assert(r@.drop_last() =~= s0);
        assert(spec_args(r@) =~= seq!["tag"@]);
    }
    match tag_message {
        Some(m) => {
            let ghost s1 = r@;
            r.push(String::from_str("-a"));
            proof {
                assert(r@.drop_last() =~= s1);
                assert(spec_args(r@) =~= seq!["tag"@, "-a"@]);
            }
            let ghost s2 = r@;
            r.push(String::from_str(tag_name));
            proof {
                assert(r@.drop_last() =~= s2);
                assert(spec_args(r@) =~= seq!["tag"@, "-a"@, tag_name@]);
            }
            let ghost s3 = r@;
            r.push(String::from_str("-m"));
            proof {
                assert(r@.drop_last() =~= s3);
                assert(spec_args(r@) =~= seq!["tag"@, "-a"@, tag_name@, "-m"@]);
            }
            let ghost s4 = r@;
            r.push(String::from_str(m.as_str()));
            proof {
                assert(r@.drop_last() =~= s4);
                assert(spec_args(r@) =~= seq!["tag"@, "-a"@, tag_name@, "-m"@, m@]);
            }
        },
        None => {
            let ghost s1 = r@;
            r.push(String::from_str(tag_name));
            proof {
                assert(r@.drop_last() =~= s1);
                assert(spec_args(r@) =~= seq!["tag"@, tag_name@]);
            }
        },
    }
    r
}

/// The arguments of the staging command for files git does not yet track:
/// `add --`, then every path in order.
pub fn add_args(paths: &Vec<String>) -> (r: Vec<String>)
    ensures
        spec_args(r@) == seq!["add"@, "--"@] + spec_args(paths@),
{
    let mut r: Vec<String> = Vec::new();
    let ghost s0 = r@;
    r.push(String::from_str("add"));
    proof {
        assert(spec_args(s0) =~= Seq::<Seq<char>>::empty());
        assert(r@.drop_last() =~= s0);
        assert(spec_args(r@) =~= seq!["add"@]);
    }
    let ghost s1 = r@;
    r.push(String::from_str("--"));
    proof {
        assert(r@.drop_last() =~= s1);
        assert(spec_args(r@) =~= seq!["add"@, "--"@]);
        assert(paths@.subrange(0, 0) =~= Seq::<String>::empty());
        assert(spec_args(Seq::<String>::empty()) =~= Seq::<Seq<char>>::empty());
        assert(spec_args(r@) =~= seq!["add"@, "--"@] + spec_args(paths@.subrange(0, 0)));
    }
    let n = paths.len();
    let mut k: usize = 0;
    while k < n
        invariant
            k <= n == paths@.len(),
            spec_args(r@) == seq!["add"@, "--"@] + spec_args(paths@.subrange(0, k as int)),
        decreases n - k,
    {
        let ghost r0 = r@;
        let t = String::from_str(paths[k].as_str());
        proof {
            assert(t@ == paths@[k as int]@);
        }
        r.push(t);
        k += 1;
        proof {
            let pre = paths@.subrange(0, k as int);
            assert(pre.drop_last() =~= paths@.subrange(0, k - 1));
            assert(pre.last() == paths@[k - 1]);
            assert(r@.drop_last() =~= r0);
            assert(spec_args(r@) =~= spec_args(r0).push(t@));
            assert(spec_args(r@) =~= seq!["add"@, "--"@] + spec_args(pre));
        }
    }
    proof {
        assert(paths@.subrange(0, n as int) =~= paths@);
    }
    r
}

} // verus!
