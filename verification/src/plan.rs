use vstd::prelude::*;
use vstd::string::StrSliceExecFns;
use vstd::string::StringExecFns;

use crate::plan_text::lemma_parse_plan_of_ser;
use crate::plan_text::lemma_ser_elements_snoc;
use crate::plan_text::append_escaped;
use crate::plan_text::parse_plan;
use crate::plan_text::scan_elements;
use crate::plan_text::scan_lit;
use crate::plan_text::scan_string_body;
use crate::plan_text::scan_version;
use crate::plan_text::ser_element3;
use crate::plan_text::ser_elements3;
use crate::plan_text::ser_plan_parts;
use crate::plan_text::lit_dest;
use crate::plan_text::lit_id;
use crate::plan_text::lit_path;
use crate::plan_text::lit_plan;
use crate::plan_text::lit_platform;
use crate::plan_text::lit_src;
use crate::plan_text::lit_version;
use crate::plan_text::views3;
use crate::strutil::push_char;
use crate::strutil::str_to_chars;
use crate::strutil::u32_to_decimal;

verus! {

/// One planned rename: the source file name (relative to the plan's root),
/// the destination name, and the durable identity captured from the source
/// before any rename.
pub struct PlanElementV1 {
    pub src: String,
    pub dest: String,
    pub id: String,
}

impl PlanElementV1 {
    /// An element from its three strings.
    pub fn new(src: &String, dest: &String, id: &String) -> (e: Self)
        ensures
            e.src@ == src@,
            e.dest@ == dest@,
            e.id@ == id@,
    {
        Self { src: src.clone(), dest: dest.clone(), id: id.clone() }
    }

    /// The source file name.
    pub fn get_source(&self) -> (r: &str)
        ensures
            r@ == self.src@,
    {
        self.src.as_str()
    }

    /// The destination name.
    pub fn get_destination(&self) -> (r: &str)
        ensures
            r@ == self.dest@,
    {
        self.dest.as_str()
    }

    /// The durable identity string.
    pub fn get_id(&self) -> (r: &str)
        ensures
            r@ == self.id@,
    {
        self.id.as_str()
    }
}

/// The three strings of one element, as the text format speaks of them.
pub open spec fn element_view(e: PlanElementV1) -> (Seq<char>, Seq<char>, Seq<char>) {
    (e.src@, e.dest@, e.id@)
}

/// The string triples of a whole element sequence.
pub open spec fn elements_view(es: Seq<PlanElementV1>) -> Seq<(Seq<char>, Seq<char>, Seq<char>)> {
    es.map_values(|e: PlanElementV1| element_view(e))
}

/// The persisted form of a plan: schema version, platform tag, canonical
/// root path, and the ordered planned renames.
pub struct PlanRootV1 {
    pub version: u32,
    pub platform: String,
    pub path: String,
    pub plan: Vec<PlanElementV1>,
}

/// The current schema version of the plan format.
pub const PLAN_VERSION: u32 = 1;

impl PlanRootV1 {
    /// An empty plan root for the given platform tag and canonicalized
    /// absolute root path. Resolving and validating the path is the
    /// caller's step, before construction.
    pub fn new(platform: &str, path: &str) -> (r: Self)
        ensures
            r.version == PLAN_VERSION,
            r.platform@ == platform@,
            r.path@ == path@,
            r.plan@.len() == 0,
    {
        Self {
            version: PLAN_VERSION,
            platform: String::from_str(platform),
            path: String::from_str(path),
            plan: Vec::new(),
        }
    }

    /// The schema version.
    pub fn get_version(&self) -> (v: u32)
        ensures
            v == self.version,
    {
        self.version
    }

    /// The platform tag.
    pub fn get_platform(&self) -> (r: &str)
        ensures
            r@ == self.platform@,
    {
        self.platform.as_str()
    }

    /// The canonical root path.
    pub fn get_path(&self) -> (r: &str)
        ensures
            r@ == self.path@,
    {
        self.path.as_str()
    }

    /// The planned renames, in order.
    pub fn get_plans(&self) -> (r: &Vec<PlanElementV1>)
        ensures
            *r == self.plan,
    {
        &self.plan
    }
}

/// The exact text the plan serializes to.
pub open spec fn ser_plan(r: PlanRootV1) -> Seq<char> {
    ser_plan_parts(r.version as nat, r.platform@, r.path@, elements_view(r.plan@))
}

/// Appends one element in its encoded form.
fn append_element(out: &mut String, e: &PlanElementV1)
    ensures
        final(out)@ == old(out)@ + ser_element3(e.src@, e.dest@, e.id@),
{
    proof {
        reveal_strlit("{\"src\":\"");
        assert("{\"src\":\""@ =~= lit_src());
    }
    out.append("{\"src\":\"");
    append_escaped(out, e.src.as_str());
    proof {
        reveal_strlit("\",\"dest\":\"");
        assert("\",\"dest\":\""@ =~= seq!['"'] + lit_dest());
    }
    out.append("\",\"dest\":\"");
    append_escaped(out, e.dest.as_str());
    proof {
        reveal_strlit("\",\"id\":\"");
        assert("\",\"id\":\""@ =~= seq!['"'] + lit_id());
    }
    out.append("\",\"id\":\"");
    append_escaped(out, e.id.as_str());
    proof {
        reveal_strlit("\"}");
        assert("\"}"@ =~= seq!['"', '}']);
    }
    out.append("\"}");
    proof {
        assert(out@ =~= old(out)@ + ser_element3(e.src@, e.dest@, e.id@));
    }
}

/// The message of a malformed-document error, naming the line (the format
/// is single-line) and the column where reading stopped.
fn malformed_at(col: usize) -> (m: String)
{
    let c: u32 = if col >= 4294967295usize {
        4294967295u32
    } else {
        col as u32
    };
    let mut m = String::from_str("error at line: 1, col: ");
    let d = u32_to_decimal(c);
    m.append(d.as_str());
    m
}

/// A rename plan: the persisted unit of work.
pub struct Plan {
    pub root: PlanRootV1,
}

impl Plan {
    /// An empty plan for the given platform tag and canonicalized absolute
    /// root path. That the root exists, and resolving a file path to its
    /// parent directory, are the caller's steps before construction.
    pub fn new(platform: &str, path: &str) -> (p: Self)
        ensures
            p.root.version == PLAN_VERSION,
            p.root.platform@ == platform@,
            p.root.path@ == path@,
            p.root.plan@.len() == 0,
    {
        Self { root: PlanRootV1::new(platform, path) }
    }

    /// Appends one planned rename. `id_lookup` is the outcome of the
    /// caller's identity capture for the source path, made strictly before
    /// any rename: on success the element is appended; on failure the plan
    /// is unchanged and the failure message is handed back.
    pub fn add(&mut self, src_name: &str, dest: &str, id_lookup: Result<String, String>) -> (r:
        Result<(), String>)
        ensures
            final(self).root.version == old(self).root.version,
            final(self).root.platform@ == old(self).root.platform@,
            final(self).root.path@ == old(self).root.path@,
            match id_lookup {
                Ok(id) => r is Ok && elements_view(final(self).root.plan@) == elements_view(
                    old(self).root.plan@,
                ).push((src_name@, dest@, id@)),
                Err(m) => r is Err && r->Err_0@ == m@ && final(self).root.plan@ == old(
                    self,
                ).root.plan@,
            },
    {
        match id_lookup {
            Ok(id) => {
                let e = PlanElementV1 {
                    src: String::from_str(src_name),
                    dest: String::from_str(dest),
                    id,
                };
                let ghost before = self.root.plan@;
                self.root.plan.push(e);
                proof {
                    assert(elements_view(self.root.plan@) =~= elements_view(before).push(
                        (src_name@, dest@, e.id@),
                    ));
                }
                Ok(())
            },
            Err(m) => Err(m),
        }
    }

    /// The persisted form.
    pub fn get_root(&self) -> (r: &PlanRootV1)
        ensures
            *r == self.root,
    {
        &self.root
    }

    /// The planned renames, in order.
    pub fn get_plans(&self) -> (r: &Vec<PlanElementV1>)
        ensures
            *r == self.root.plan,
    {
        &self.root.plan
    }

    /// Writes the whole plan as its structured text form: version, platform,
    /// path, and every element, in order.
    pub fn serialize(self) -> (r: Result<String, String>)
        ensures
            r is Ok,
            r->Ok_0@ == ser_plan(self.root),
    {
        let mut out = String::new();
        proof {
            reveal_strlit("{\"version\":");
            assert("{\"version\":"@ =~= lit_version());
        }
        out.append("{\"version\":");
        let d = u32_to_decimal(self.root.version);
        out.append(d.as_str());
        proof {
            reveal_strlit(",\"platform\":\"");
            assert(",\"platform\":\""@ =~= lit_platform());
        }
        out.append(",\"platform\":\"");
        append_escaped(&mut out, self.root.platform.as_str());
        proof {
            reveal_strlit("\",\"path\":\"");
            assert("\",\"path\":\""@ =~= seq!['"'] + lit_path());
        }
        out.append("\",\"path\":\"");
        append_escaped(&mut out, self.root.path.as_str());
        proof {
            reveal_strlit("\",\"plan\":[");
            assert("\",\"plan\":["@ =~= seq!['"'] + lit_plan());
        }
        out.append("\",\"plan\":[");
        let ghost base = out@;
        let n = self.root.plan.len();
        let mut k: usize = 0;
        while k < n
            invariant
                k <= n,
                n == self.root.plan@.len(),
                out@ == base + ser_elements3(elements_view(self.root.plan@.take(k as int))),
            decreases n - k,
        {
            let ghost done = elements_view(self.root.plan@.take(k as int));
            let ghost out0 = out@;
            if k > 0 {
                push_char(&mut out, ',');
            }
            let ghost out1 = out@;
            let e = &self.root.plan[k];
            append_element(&mut out, e);
            k = k + 1;
            proof {
                let e3 = element_view(self.root.plan@[k as int - 1]);
                assert(out@ =~= out1 + ser_element3(e3.0, e3.1, e3.2));
                assert(elements_view(self.root.plan@.take(k as int)) =~= done.push(e3));
                lemma_ser_elements_snoc(done, e3);
                if k == 1 {
                    assert(out1 == out0);
                    assert(out@ =~= base + ser_elements3(
                        elements_view(self.root.plan@.take(k as int)),
                    ));
                } else {
                    assert(out1 =~= (base + ser_elements3(done)) + seq![',']);
                    assert(out@ =~= base + (ser_elements3(done) + seq![','] + ser_element3(
                        e3.0,
                        e3.1,
                        e3.2,
                    )));
                }
            }
        }
        proof {
            assert(self.root.plan@.take(n as int) =~= self.root.plan@);
            reveal_strlit("]}");
            assert("]}"@ =~= seq![']', '}']);
        }
        out.append("]}");
        proof {
            assert(out@ =~= ser_plan(self.root));
        }
        Ok(out)
    }

    /// Reads a plan back from its structured text form. Succeeds exactly on
    /// a well-formed document whose version is the current one; any unknown
    /// field, other field order, unknown version or trailing text is
    /// refused rather than guessed at. Re-validating that the root path
    /// still exists is the caller's step after parsing.
    #[verifier::rlimit(100)]
    pub fn deserialize(data: &String) -> (r: Result<Plan, String>)
        ensures
            r is Ok <==> (match parse_plan(data@) {
                Some((v, pf, pa, es)) => v == PLAN_VERSION,
                None => false,
            }),
            r is Ok ==> (match parse_plan(data@) {
                Some((v, pf, pa, es)) => {
                    &&& r->Ok_0.root.version == PLAN_VERSION
                    &&& r->Ok_0.root.platform@ == pf
                    &&& r->Ok_0.root.path@ == pa
                    &&& elements_view(r->Ok_0.root.plan@) == es
                },
                None => false,
            }),
    {
        let cs = str_to_chars(data.as_str());
        proof {
            reveal_strlit("{\"version\":");
            assert("{\"version\":"@ =~= lit_version());
            assert(cs@.skip(0) =~= cs@);
        }
        let j1 = match scan_lit(&cs, 0, "{\"version\":") {
            Some(j) => j,
            None => {
                return Err(malformed_at(0));
            },
        };
        let (is_one, j2) = match scan_version(&cs, j1) {
            Some(p) => p,
            None => {
                return Err(malformed_at(j1));
            },
        };
        proof {
            reveal_strlit(",\"platform\":\"");
            assert(",\"platform\":\""@ =~= lit_platform());
        }
        let j3 = match scan_lit(&cs, j2, ",\"platform\":\"") {
            Some(j) => j,
            None => {
                return Err(malformed_at(j2));
            },
        };
        let (platform, j4) = match scan_string_body(&cs, j3) {
            Some(p) => p,
            None => {
                return Err(malformed_at(j3));
            },
        };
        proof {
            reveal_strlit(",\"path\":\"");
            assert(",\"path\":\""@ =~= lit_path());
        }
        let j5 = match scan_lit(&cs, j4, ",\"path\":\"") {
            Some(j) => j,
            None => {
                return Err(malformed_at(j4));
            },
        };
        let (path, j6) = match scan_string_body(&cs, j5) {
            Some(p) => p,
            None => {
                return Err(malformed_at(j5));
            },
        };
        proof {
            reveal_strlit(",\"plan\":[");
            assert(",\"plan\":["@ =~= lit_plan());
        }
        let j7 = match scan_lit(&cs, j6, ",\"plan\":[") {
            Some(j) => j,
            None => {
                return Err(malformed_at(j6));
            },
        };
        let (tuples, j8) = match scan_elements(&cs, j7) {
            Some(p) => p,
            None => {
                return Err(malformed_at(j7));
            },
        };
        if !(cs.len() - j8 == 1 && cs[j8] == '}') {
            proof {
                let s8 = cs@.skip(j8 as int);
                if s8.len() == 1 {
                    assert(s8[0] == cs@[j8 as int]);
                }
            }
            return Err(malformed_at(j8));
        }
        proof {
            let s8 = cs@.skip(j8 as int);
            assert(s8.len() == 1);
            assert(s8[0] == cs@[j8 as int]);
        }
        if !is_one {
            return Err(String::from_str("unsupported plan version"));
        }
        let mut plan: Vec<PlanElementV1> = Vec::new();
        let m = tuples.len();
        let mut k: usize = 0;
        while k < m
            invariant
                k <= m,
                m == tuples@.len(),
                elements_view(plan@) == views3(tuples@.take(k as int)),
            decreases m - k,
        {
            let t = &tuples[k];
            let ghost before = plan@;
            let e = PlanElementV1 { src: t.0.clone(), dest: t.1.clone(), id: t.2.clone() };
            proof {
                assert(element_view(e) == (tuples@[k as int].0@, tuples@[k as int].1@, tuples@[
                    k as int].2@));
            }
            plan.push(e);
            k = k + 1;
            proof {
                let k0 = k as int - 1;
                assert(tuples@.take(k as int) =~= tuples@.take(k0).push(tuples@[k0]));
                assert(views3(tuples@.take(k as int)) =~= views3(tuples@.take(k0)).push(
                    (tuples@[k0].0@, tuples@[k0].1@, tuples@[k0].2@),
                ));
                assert(elements_view(plan@) =~= elements_view(before).push(
                    (tuples@[k0].0@, tuples@[k0].1@, tuples@[k0].2@),
                ));
            }
        }
        proof {
            assert(tuples@.take(m as int) =~= tuples@);
        }
        Ok(
            Plan {
                root: PlanRootV1 { version: PLAN_VERSION, platform, path, plan },
            },
        )
    }
}

/// Round-trip law: the text a plan serializes to parses back to exactly the
/// plan's version, platform, path and element triples, in their original
/// order. Together with the contracts of `serialize` and `deserialize` this
/// says that deserializing a serialized plan reproduces the plan.
pub proof fn lemma_plan_round_trip(r: PlanRootV1)
    ensures
        parse_plan(ser_plan(r)) == Some(
            (r.version as nat, r.platform@, r.path@, elements_view(r.plan@)),
        ),
{
    lemma_parse_plan_of_ser(r.version as nat, r.platform@, r.path@, elements_view(r.plan@));
}

} // verus!
