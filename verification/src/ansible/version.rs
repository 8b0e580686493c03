//! Versions of the Ansible packages and the stages of a release.

use crate::ansible::error::AnsibleError;
use crate::ansible::order::compare_numbers;
use crate::ansible::order::lemma_order_total;
use crate::ansible::order::older;
use crate::ansible::order::same;
use crate::ansible::order::version_order;
use crate::ansible::parse::chars_of;
use crate::ansible::parse::read_version;
use crate::ansible::text::display_stage;
use crate::ansible::text::display_version;
use crate::ansible::text::parse_version;
use crate::ansible::write::write_numbers;
use crate::ansible::write::write_stage;
use std::cmp::Ordering;
use vstd::prelude::*;
use vstd::std_specs::cmp::PartialEqSpec;
use vstd::std_specs::cmp::PartialOrdSpec;

verus! {

/// How far along a release is. Every stage but `GA` carries the number of the
/// pre-release within that stage.
#[derive(Eq, PartialEq, Clone, Copy, Debug, Hash, Structural)]
pub enum Stage {
    /// General Availability release
    GA,
    /// Release Candidate
    RC(u8),
    /// Alpha
    A(u8),
    /// Beta
    B(u8),
    /// Development snapshot
    Dev(u8),
}

/// Ansible versions come with two, three or four numbers, so the numbers are
/// kept in a vector, and the stage beside them.
#[derive(Debug)]
pub struct Version {
    pub numbers: Vec<u8>,
    pub stage: Stage,
}

/// What a `Version` stands for: its numbers in order, and its stage.
pub struct VersionView {
    pub numbers: Seq<u8>,
    pub stage: Stage,
}

impl View for Version {
    type V = VersionView;

    open spec fn view(&self) -> VersionView {
        VersionView { numbers: self.numbers@, stage: self.stage }
    }
}

impl Stage {
    /// The stage as it is written at the end of a version: nothing for a
    /// final release, else the mark of the stage and its number.
    pub fn to_string(&self) -> (text: String)
        ensures
            text@ == display_stage(*self),
    {
        let mut text = String::new();
        write_stage(&mut text, *self);
        text
    }
}

impl Version {
    /// A version has at least one number.
    pub open spec fn wf(&self) -> bool {
        self.numbers@.len() > 0
    }

    /// The version of these numbers, of which there is at least one, at this
    /// stage.
    pub fn new(numbers: Vec<u8>, stage: Stage) -> (v: Version)
        requires
            numbers@.len() > 0,
        ensures
            v.numbers == numbers,
            v.stage == stage,
            v.wf(),
    {
        Version { numbers, stage }
    }

    /// The version `x.y.z` at this stage.
    pub fn new3(x: u8, y: u8, z: u8, stage: Stage) -> (v: Version)
        ensures
            v@ == (VersionView { numbers: seq![x, y, z], stage }),
            v.wf(),
    {
        Version { numbers: vec![x, y, z], stage }
    }

    /// Reads an Ansible version.
    ///
    /// This is no parser for all of PEP 440: it reads what `ansible`,
    /// `ansible-base` and `ansible-core` have used, numbers with a `.` between
    /// them and one stage at the end. A string that is no such version comes
    /// back whole in the error.
    pub fn from_str(s: &str) -> (r: Result<Version, AnsibleError>)
        ensures
            match r {
                Ok(v) => parse_version(s@) == Some(v@) && v.wf(),
                Err(e) => parse_version(s@) is None && match e {
                    AnsibleError::ParseError(input) => input@ == s@,
                    _ => false,
                },
            },
    {
        let chars = chars_of(s);
        match read_version(&chars) {
            Some(v) => Ok(v),
            None => Err(AnsibleError::parse_error(s.to_owned())),
        }
    }

    /// The version as text: its numbers with a `.` between them, then its
    /// stage.
    pub fn to_string(&self) -> (text: String)
        ensures
            text@ == display_version(self@),
    {
        let mut text = String::new();
        write_numbers(&mut text, &self.numbers);
        write_stage(&mut text, self.stage);
        text
    }
}

/// The `Ordering` that a sign stands for.
pub open spec fn ordering_of(sign: int) -> Ordering {
    if sign < 0 {
        Ordering::Less
    } else if sign == 0 {
        Ordering::Equal
    } else {
        Ordering::Greater
    }
}

fn number_ordering(a: u8, b: u8) -> (r: Ordering)
    ensures
        r == ordering_of(a - b),
{
    if a < b {
        Ordering::Less
    } else if a == b {
        Ordering::Equal
    } else {
        Ordering::Greater
    }
}

impl Version {
    /// Compares two versions: by their numbers, trailing zeros left out, and
    /// at equal numbers by their stages.
    pub fn cmp(&self, other: &Version) -> (r: Ordering)
        ensures
            r == ordering_of(version_order(self@, other@)),
    {
        let by_numbers: i8 = compare_numbers(&self.numbers, &other.numbers);
        if by_numbers < 0 {
            return Ordering::Less;
        }
        if by_numbers > 0 {
            return Ordering::Greater;
        }
        // The numbers are equal from here on: the stages decide.

        match (self.stage, other.stage) {
            (Stage::GA, Stage::GA) => Ordering::Equal,
            (Stage::GA, _) => Ordering::Greater,
            (Stage::RC(_), Stage::GA) => Ordering::Less,
            (Stage::RC(sv), Stage::RC(ov)) => number_ordering(sv, ov),
            (Stage::RC(_), _) => Ordering::Greater,
            (Stage::A(sv), Stage::A(ov)) => number_ordering(sv, ov),
            (Stage::A(_), Stage::Dev(_)) => Ordering::Greater,
            (Stage::A(_), _) => Ordering::Less,
            (Stage::B(sv), Stage::B(ov)) => number_ordering(sv, ov),
            (Stage::B(_), Stage::A(_)) => Ordering::Greater,
            (Stage::B(_), Stage::Dev(_)) => Ordering::Greater,
            (Stage::B(_), _) => Ordering::Less,
            (Stage::Dev(sv), Stage::Dev(ov)) => number_ordering(sv, ov),
            (Stage::Dev(_), _) => Ordering::Less,
        }
    }
}

impl Clone for Version {
    fn clone(&self) -> (r: Version)
        ensures
            r@ == self@,
    {
        Version { numbers: self.numbers.clone(), stage: self.stage }
    }
}

/// Two versions are equal when neither is older than the other: zeros at the
/// end of the numbers do not tell two versions apart.
impl PartialEq for Version {
    fn eq(&self, other: &Version) -> (r: bool) {
        match self.cmp(other) {
            Ordering::Equal => true,
            _ => false,
        }
    }
}

impl vstd::std_specs::cmp::PartialEqSpecImpl for Version {
    open spec fn obeys_eq_spec() -> bool {
        true
    }

    open spec fn eq_spec(&self, other: &Version) -> bool {
        same(self@, other@)
    }
}

impl Eq for Version {

}

/// `<`, `<=`, `>` and `>=` go by the order of versions.

impl PartialOrd for Version {
    fn partial_cmp(&self, other: &Version) -> (r: Option<Ordering>) {
        Some(self.cmp(other))
    }
}

impl vstd::std_specs::cmp::PartialOrdSpecImpl for Version {
    open spec fn obeys_partial_cmp_spec() -> bool {
        true
    }

    open spec fn partial_cmp_spec(&self, other: &Version) -> Option<Ordering> {
        Some(ordering_of(version_order(self@, other@)))
    }
}

/// The operators follow the order of versions: `a < b` where `a` is older,
/// `a > b` where `b` is older, `a == b` where the two are the same. So of
/// `a < b`, `a == b` and `a > b` exactly one holds.
pub proof fn lemma_one_of_three(a: Version, b: Version)
    ensures
        a.partial_cmp_spec(&b) == Some(Ordering::Less) <==> older(a@, b@),
        a.partial_cmp_spec(&b) == Some(Ordering::Greater) <==> older(b@, a@),
        a.partial_cmp_spec(&b) == Some(Ordering::Equal) <==> a.eq_spec(&b),
        a.eq_spec(&b) <==> same(a@, b@),
        older(a@, b@) || same(a@, b@) || older(b@, a@),
        !(older(a@, b@) && same(a@, b@)),
        !(older(b@, a@) && same(a@, b@)),
        !(older(a@, b@) && older(b@, a@)),
{
    lemma_order_total(a@, b@);
}

} // verus!
