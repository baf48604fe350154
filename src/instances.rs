//! Entity instances of an exchange-file data section, and the table that finds
//! them by identifier.
use crate::token::{Name, NameView, RealLiteral, RealLiteralView};
use vstd::prelude::*;

verus! {

/// A parameter of a record.
#[derive(Debug)]
pub enum Parameter {
    Integer(i64),
    Real(RealLiteral),
    String(String),
    Enumeration(String),
    Ref(Name),
    /// A value wrapped in a keyword, `KEYWORD ( value )`.
    Typed(String, Box<Parameter>),
    List(Vec<Parameter>),
    /// `$`
    Omitted,
    /// `*`
    NotProvided,
}

pub enum ParamView {
    Integer(i64),
    Real(RealLiteralView),
    String(Seq<char>),
    Enumeration(Seq<char>),
    Ref(NameView),
    Typed(Seq<char>, Box<ParamView>),
    List(Seq<ParamView>),
    Omitted,
    NotProvided,
}

pub open spec fn param_view(p: &Parameter) -> ParamView
    decreases p,
{
    match p {
        Parameter::Integer(x) => ParamView::Integer(*x),
        Parameter::Real(r) => ParamView::Real(r@),
        Parameter::String(t) => ParamView::String(t@),
        Parameter::Enumeration(t) => ParamView::Enumeration(t@),
        Parameter::Ref(n) => ParamView::Ref(n@),
        Parameter::Typed(k, b) => ParamView::Typed(k@, Box::new(param_view(&**b))),
        Parameter::List(v) => ParamView::List(
            Seq::new(v.len() as nat, |i: int| if 0 <= i < v.len() { param_view(&v[i]) } else { ParamView::Omitted }),
        ),
        Parameter::Omitted => ParamView::Omitted,
        Parameter::NotProvided => ParamView::NotProvided,
    }
}

pub open spec fn params_view(v: Seq<Parameter>) -> Seq<ParamView> {
    Seq::new(v.len(), |i: int| param_view(&v[i]))
}

impl View for Parameter {
    type V = ParamView;

    open spec fn view(&self) -> ParamView {
        param_view(self)
    }
}

/// `KEYWORD ( params )`; the parameters are held as one list.
#[derive(Debug)]
pub struct Record {
    pub keyword: String,
    pub parameter: Parameter,
}

/// `#id = RECORD ;` or `#id = ( RECORD RECORD ... ) ;`.
#[derive(Debug)]
pub enum EntityInstance {
    Simple { id: u64, record: Record },
    Complex { id: u64, records: Vec<Record> },
}

pub type RecordView = (Seq<char>, ParamView);

pub open spec fn record_view(r: &Record) -> RecordView {
    (r.keyword@, r.parameter@)
}

pub open spec fn records_view(v: Seq<Record>) -> Seq<RecordView> {
    v.map_values(|r: Record| record_view(&r))
}

pub enum InstanceView {
    Simple { id: u64, record: RecordView },
    Complex { id: u64, records: Seq<RecordView> },
}

impl View for EntityInstance {
    type V = InstanceView;

    open spec fn view(&self) -> InstanceView {
        match self {
            EntityInstance::Simple { id, record } => InstanceView::Simple { id: *id, record: record_view(record) },
            EntityInstance::Complex { id, records } => InstanceView::Complex { id: *id, records: records_view(records@) },
        }
    }
}

impl EntityInstance {
    pub open spec fn spec_id(&self) -> u64 {
        match self {
            EntityInstance::Simple { id, .. } => *id,
            EntityInstance::Complex { id, .. } => *id,
        }
    }

    /// The keywords of its records, in order.
    pub open spec fn keywords(&self) -> Seq<Seq<char>> {
        match self {
            EntityInstance::Simple { record, .. } => seq![record.keyword@],
            EntityInstance::Complex { records, .. } => records@.map_values(|r: Record| r.keyword@),
        }
    }

    pub fn id(&self) -> (r: u64)
        ensures
            r == self.spec_id(),
    {
        match self {
            EntityInstance::Simple { id, .. } => *id,
            EntityInstance::Complex { id, .. } => *id,
        }
    }

    /// Whether one of its records has the keyword `name`.
    pub fn has_keyword(&self, name: &String) -> (r: bool)
        ensures
            r == self.keywords().contains(name@),
    {
        match self {
            EntityInstance::Simple { record, .. } => {
                let r = record.keyword == *name;
                proof {
                    if self.keywords().contains(name@) {
                        let i = choose|i: int| 0 <= i < self.keywords().len() && self.keywords()[i] == name@;
                        assert(i == 0);
                    }
                    if r {
                        assert(self.keywords()[0] == name@);
                    }
                }
                r
            },
            EntityInstance::Complex { records, .. } => {
                let mut k: usize = 0;
                while k < records.len()
                    invariant
                        k <= records@.len(),
                        self.keywords() == records@.map_values(|r: Record| r.keyword@),
                        forall|i: int| 0 <= i < k ==> records@[i].keyword@ != name@,
                    decreases records@.len() - k,
                {
                    if records[k].keyword == *name {
                        assert(self.keywords()[k as int] == name@);
                        return true;
                    }
                    k = k + 1;
                }
                proof {
                    if self.keywords().contains(name@) {
                        let i = choose|i: int| 0 <= i < self.keywords().len() && self.keywords()[i] == name@;
                        assert(records@[i].keyword@ == name@);
                    }
                }
                false
            },
        }
    }
}

/// Errors of the instance table.
#[derive(Clone, Copy, Debug, PartialEq, Eq, Structural)]
pub enum ResolveError {
    /// No instance has the identifier.
    MissingReference(u64),
    /// Two instances share the identifier.
    DuplicateInstance(u64),
}

pub open spec fn ids(v: Seq<EntityInstance>) -> Seq<u64> {
    v.map_values(|e: EntityInstance| e.spec_id())
}

pub open spec fn unique_ids(v: Seq<EntityInstance>) -> bool {
    forall|a: int, b: int| 0 <= a < b < v.len() ==> v[a].spec_id() != v[b].spec_id()
}

/// The instances of one data section, in source order, each identifier once.
#[derive(Debug)]
pub struct InstanceTable {
    instances: Vec<EntityInstance>,
}

impl InstanceTable {
    pub closed spec fn spec_instances(&self) -> Seq<EntityInstance> {
        self.instances@
    }

    pub open spec fn wf(&self) -> bool {
        unique_ids(self.spec_instances())
    }

    /// A table of the given instances; refused where two share an identifier.
    pub fn new(instances: Vec<EntityInstance>) -> (r: Result<InstanceTable, ResolveError>)
        ensures
            match r {
                Ok(t) => t.wf() && t.spec_instances() == instances@,
                Err(ResolveError::DuplicateInstance(id)) => exists|a: int, b: int|
                    0 <= a < b < instances@.len() && instances@[a].spec_id() == id
                        && instances@[b].spec_id() == id,
                Err(_) => false,
            },
    {
        let mut b: usize = 0;
        while b < instances.len()
            invariant
                b <= instances@.len(),
                forall|x: int, y: int| 0 <= x < y < b ==> instances@[x].spec_id() != instances@[y].spec_id(),
            decreases instances@.len() - b,
        {
            let id = instances[b].id();
            let mut a: usize = 0;
            while a < b
                invariant
                    a <= b < instances@.len(),
                    id == instances@[b as int].spec_id(),
                    forall|x: int| 0 <= x < a ==> instances@[x].spec_id() != id,
                decreases b - a,
            {
                if instances[a].id() == id {
                    return Err(ResolveError::DuplicateInstance(id));
                }
                a = a + 1;
            }
            b = b + 1;
        }
        Ok(InstanceTable { instances })
    }

    /// The number of instances.
    pub fn len(&self) -> (r: usize)
        ensures
            r == self.spec_instances().len(),
    {
        self.instances.len()
    }

    /// The instance with identifier `id`.
    pub fn get(&self, id: u64) -> (r: Result<&EntityInstance, ResolveError>)
        ensures
            match r {
                Ok(e) => e.spec_id() == id && exists|j: int|
                    0 <= j < self.spec_instances().len() && self.spec_instances()[j] == *e,
                Err(err) => err == ResolveError::MissingReference(id) && forall|j: int|
                    0 <= j < self.spec_instances().len() ==> self.spec_instances()[j].spec_id() != id,
            },
    {
        let mut j: usize = 0;
        while j < self.instances.len()
            invariant
                j <= self.instances@.len(),
                forall|x: int| 0 <= x < j ==> self.instances@[x].spec_id() != id,
            decreases self.instances@.len() - j,
        {
            if self.instances[j].id() == id {
                assert(self.spec_instances()[j as int] == self.instances@[j as int]);
                return Ok(&self.instances[j]);
            }
            j = j + 1;
        }
        Err(ResolveError::MissingReference(id))
    }

    /// The identifiers of the instances with a record of keyword `name`, in source order.
    pub fn ids_by_keyword(&self, name: &str) -> (r: Vec<u64>)
        ensures
            r@ == ids(self.spec_instances().filter(|e: EntityInstance| e.keywords().contains(name@))),
    {
        let wanted = crate::namespace::text_of(name);
        let ghost pred = |e: EntityInstance| e.keywords().contains(name@);
        let mut out: Vec<u64> = Vec::new();
        let mut j: usize = 0;
        proof {
            reveal(Seq::filter);
            assert(self.instances@.take(0).len() == 0);
            assert(ids(self.instances@.take(0).filter(pred)) =~= out@);
        }
        while j < self.instances.len()
            invariant
                j <= self.instances@.len(),
                wanted@ == name@,
                pred == (|e: EntityInstance| e.keywords().contains(name@)),
                out@ == ids(self.instances@.take(j as int).filter(pred)),
            decreases self.instances@.len() - j,
        {
            let ghost prefix = self.instances@.take(j + 1);
            proof {
                assert(prefix.drop_last() =~= self.instances@.take(j as int));
                assert(prefix.last() == self.instances@[j as int]);
                assert(prefix =~= self.instances@.take(j as int).push(self.instances@[j as int]));
                self.instances@.take(j as int).lemma_filter_push(self.instances@[j as int], pred);
                assert(self.instances@.take(0).filter(pred) == Seq::<EntityInstance>::empty()) by {
                    reveal(Seq::filter);
                }
            }
            if self.instances[j].has_keyword(&wanted) {
                let ghost prev = out@;
                out.push(self.instances[j].id());
                proof {
                    let f = self.instances@.take(j as int).filter(pred);
                    assert(ids(f.push(self.instances@[j as int])) =~= ids(f).push(self.instances@[j as int].spec_id()));
                }
            }
            j = j + 1;
        }
        proof {
            assert(self.instances@.take(self.instances@.len() as int) =~= self.instances@);
        }
        out
    }
}

} // verus!
