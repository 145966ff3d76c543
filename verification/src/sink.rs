//! The terminal adapter of a pipeline: it turns one table's delta stream
//! into cache mutations, one transaction per epoch, and fans applied
//! operations out as notifications over an optional bounded channel.

use vstd::prelude::*;

use crate::cache::{Cache, QueryExpression};
use crate::errors::{CacheError, ExecutionError, SinkError};
use crate::fields::{FieldType, FieldV};
use crate::records::{
    get_primary_key, FieldDefinition, IndexDefinition, IndexDefinitionV, Operation, OperationV,
    Record, RecordV, Schema, SchemaIdentifier,
};

verus! {

use crate::window::DEFAULT_PORT_HANDLE;

/// A primary key configured on an endpoint, by column names.
#[derive(Debug)]
pub struct ApiIndex {
    pub primary_key: Vec<String>,
}

/// The externally served endpoint a sink writes to.
#[derive(Debug)]
pub struct ApiEndpoint {
    pub name: String,
    pub path: String,
    pub index: Option<ApiIndex>,
}

/// Feature switches of the serving layer.
#[derive(Clone, Copy, PartialEq, Eq, Structural, Debug)]
pub struct Flags {
    pub dynamic: bool,
    pub grpc_web: bool,
    pub push_events: bool,
}

/// How the served endpoints authenticate clients.
#[derive(Debug)]
pub enum ApiSecurity {
    Jwt(String),
}

/// One unit of executor-driven processing, bounded by one transaction.
#[derive(Debug)]
pub struct Epoch {
    pub seq: u64,
    pub node: String,
    pub txn_seq: u64,
    pub timestamp: i64,
}

/// Sink construction settings.
#[derive(Debug)]
pub struct CacheSinkSettings {
    pub api_dir: String,
    pub flags: Option<Flags>,
    pub api_security: Option<ApiSecurity>,
}

impl CacheSinkSettings {
    pub fn new(api_dir: String, flags: Option<Flags>, api_security: Option<ApiSecurity>) -> (r:
        Self)
        ensures
            r.api_dir@ == api_dir@,
            r.flags == flags,
            r.api_security == api_security,
    {
        CacheSinkSettings { api_dir, flags, api_security }
    }
}

/// The position of the first schema column with this name.
pub open spec fn field_position(fields: Seq<FieldDefinition>, name: Seq<char>, i: int) -> Option<
    int,
>
    decreases fields.len() - i,
{
    if i < 0 || i >= fields.len() {
        None
    } else if fields[i].name@ == name {
        Some(i)
    } else {
        field_position(fields, name, i + 1)
    }
}

/// The column positions of the configured primary-key names, or the first
/// name that no column carries.
pub open spec fn configured_positions(fields: Seq<FieldDefinition>, names: Seq<Seq<char>>) -> Result<
    Seq<int>,
    Seq<char>,
>
    decreases names.len(),
{
    if names.len() == 0 {
        Ok(Seq::empty())
    } else {
        match configured_positions(fields, names.drop_last()) {
            Ok(rest) => match field_position(fields, names.last(), 0) {
                Some(p) => Ok(rest.push(p)),
                None => Err(names.last()),
            },
            Err(n) => Err(n),
        }
    }
}

/// Find the first column with this name.
fn find_field_position(fields: &Vec<FieldDefinition>, name: &String) -> (r: Option<usize>)
    ensures
        match r {
            Some(i) => field_position(fields@, name@, 0) == Some(i as int),
            None => field_position(fields@, name@, 0) is None,
        },
{
    let mut i: usize = 0;
    while i < fields.len()
        invariant
            i <= fields@.len(),
            field_position(fields@, name@, 0) == field_position(fields@, name@, i as int),
        decreases fields@.len() - i,
    {
        if fields[i].name.eq(name) {
            return Some(i);
        }
        i = i + 1;
    }
    None
}

/// Resolve the endpoint's configured primary-key names to column
/// positions; an unknown name fails pipeline construction.
pub fn create_primary_indexes(schema: &Schema, api_index: &ApiIndex) -> (r: Result<
    Vec<usize>,
    ExecutionError,
>)
    ensures
        match r {
            Ok(positions) => configured_positions(
                schema.fields@,
                api_index.primary_key.deep_view(),
            ) == Ok::<Seq<int>, Seq<char>>(positions@.map(|_i: int, p: usize| p as int)),
            Err(e) => e matches ExecutionError::FieldNotFound(n) && configured_positions(
                schema.fields@,
                api_index.primary_key.deep_view(),
            ) == Err::<Seq<int>, Seq<char>>(n@),
        },
{
    let ghost names = api_index.primary_key.deep_view();
    let mut positions: Vec<usize> = Vec::new();
    proof {
        assert(positions@.map(|_i: int, p: usize| p as int) =~= Seq::<int>::empty());
        assert(names.take(0) =~= Seq::<Seq<char>>::empty());
    }
    let mut i: usize = 0;
    while i < api_index.primary_key.len()
        invariant
            names == api_index.primary_key.deep_view(),
            names.len() == api_index.primary_key@.len(),
            i <= names.len(),
            configured_positions(schema.fields@, names.take(i as int)) == Ok::<
                Seq<int>,
                Seq<char>,
            >(positions@.map(|_i: int, p: usize| p as int)),
        decreases names.len() - i,
    {
        proof {
            assert(names[i as int] == api_index.primary_key@[i as int]@);
        }
        let name = &api_index.primary_key[i];
        match find_field_position(&schema.fields, name) {
            Some(p) => {
                let ghost prev = positions@.map(|_i: int, p: usize| p as int);
                positions.push(p);
                proof {
                    assert(positions@.map(|_i: int, p: usize| p as int) =~= prev.push(p as int));
                    assert(names.take(i as int + 1).drop_last() =~= names.take(i as int));
                    assert(names.take(i as int + 1).last() == names[i as int]);
                }
            },
            None => {
                proof {
                    let j = i as int;
                    assert(names.take(j + 1).drop_last() =~= names.take(j));
                    assert(names.take(j + 1).last() == names[j]);
                    assert(configured_positions(schema.fields@, names.take(j + 1)) == Err::<
                        Seq<int>,
                        Seq<char>,
                    >(names[j]));
                    lemma_configured_err_prefix(schema.fields@, names, j + 1);
                    assert(configured_positions(schema.fields@, names) == Err::<
                        Seq<int>,
                        Seq<char>,
                    >(name@));
                }
                return Err(ExecutionError::FieldNotFound(name.clone()));
            },
        }
        i = i + 1;
    }
    proof {
        assert(names.take(names.len() as int) =~= names);
        assert(configured_positions(schema.fields@, names) == Ok::<Seq<int>, Seq<char>>(
            positions@.map(|_i: int, p: usize| p as int),
        ));
    }
    Ok(positions)
}

/// Once a prefix of the names fails to resolve, the whole list fails with
/// the same name.
proof fn lemma_configured_err_prefix(fields: Seq<FieldDefinition>, names: Seq<Seq<char>>, i: int)
    requires
        0 < i <= names.len(),
        configured_positions(fields, names.take(i)).is_err(),
    ensures
        configured_positions(fields, names) == configured_positions(fields, names.take(i)),
    decreases names.len() - i,
{
    if i == names.len() {
        assert(names.take(i) =~= names);
    } else {
        assert(names.take(i + 1).drop_last() =~= names.take(i));
        lemma_configured_err_prefix(fields, names, i + 1);
    }
}

/// The names of the given columns, for error reporting.
pub fn get_field_names(schema: &Schema, indexes: &Vec<usize>) -> (r: Vec<String>)
    requires
        forall|i: int| 0 <= i < indexes@.len() ==> #[trigger] indexes@[i] < schema.fields@.len(),
    ensures
        r.deep_view() == indexes@.map(|_i: int, c: usize| schema.fields@[c as int].name@),
{
    let ghost target = indexes@.map(|_i: int, c: usize| schema.fields@[c as int].name@);
    let mut r: Vec<String> = Vec::new();
    let mut i: usize = 0;
    while i < indexes.len()
        invariant
            target == indexes@.map(|_i: int, c: usize| schema.fields@[c as int].name@),
            forall|j: int| 0 <= j < indexes@.len() ==> #[trigger] indexes@[j] < schema.fields@.len(),
            i <= indexes@.len(),
            r.deep_view() =~= target.take(i as int),
        decreases indexes@.len() - i,
    {
        let ghost prev = r.deep_view();
        r.push(schema.fields[indexes[i]].name.clone());
        proof {
            assert(r.deep_view() =~= prev.push(target[i as int]));
            assert(r.deep_view() =~= target.take(i as int + 1));
        }
        i = i + 1;
    }
    proof {
        assert(r.deep_view() =~= target);
    }
    r
}

/// The secondary indexes derived for one column: numeric, temporal,
/// boolean and point columns get an ordered index; string columns get an
/// ordered and a token index; text, binary and unstructured columns get
/// none.
pub open spec fn defs_for_column(t: FieldType, i: int) -> Seq<IndexDefinitionV> {
    match t {
        FieldType::UInt | FieldType::Int | FieldType::Float | FieldType::Boolean
            | FieldType::Decimal | FieldType::Timestamp | FieldType::Date | FieldType::Point => seq![
            IndexDefinitionV::SortedInverted(seq![i as usize]),
        ],
        FieldType::String => seq![
            IndexDefinitionV::SortedInverted(seq![i as usize]),
            IndexDefinitionV::FullText(i as usize),
        ],
        FieldType::Text | FieldType::Binary | FieldType::Bson => Seq::empty(),
    }
}

/// The automatically derived secondary indexes of the first `n` columns.
pub open spec fn secondary_defs(fields: Seq<FieldDefinition>, n: int) -> Seq<IndexDefinitionV>
    decreases n,
{
    if n <= 0 {
        Seq::empty()
    } else {
        secondary_defs(fields, n - 1) + defs_for_column(fields[n - 1].typ, n - 1)
    }
}

/// A found position carries the looked-up name and is in bounds.
proof fn lemma_field_position_props(fields: Seq<FieldDefinition>, name: Seq<char>, i: int, p: int)
    requires
        0 <= i,
        field_position(fields, name, i) == Some(p),
    ensures
        i <= p < fields.len(),
        fields[p].name@ == name,
    decreases fields.len() - i,
{
    if i < fields.len() && fields[i].name@ != name {
        lemma_field_position_props(fields, name, i + 1, p);
    }
}

/// Resolved positions are in bounds and carry their names.
proof fn lemma_configured_ok_props(
    fields: Seq<FieldDefinition>,
    names: Seq<Seq<char>>,
    cp: Seq<int>,
)
    requires
        configured_positions(fields, names) == Ok::<Seq<int>, Seq<char>>(cp),
    ensures
        cp.len() == names.len(),
        forall|j: int|
            0 <= j < cp.len() ==> 0 <= #[trigger] cp[j] < fields.len() && fields[cp[j]].name@
                == names[j],
    decreases names.len(),
{
    if names.len() > 0 {
        let rest = configured_positions(fields, names.drop_last());
        match rest {
            Ok(rp) => {
                lemma_configured_ok_props(fields, names.drop_last(), rp);
                let lastp = field_position(fields, names.last(), 0);
                match lastp {
                    Some(p) => {
                        lemma_field_position_props(fields, names.last(), 0, p);
                        assert(cp == rp.push(p));
                        assert forall|j: int|
                            0 <= j < cp.len() implies 0 <= #[trigger] cp[j] < fields.len()
                            && fields[cp[j]].name@ == names[j] by {
                            if j < cp.len() - 1 {
                                assert(cp[j] == rp[j]);
                                assert(names.drop_last()[j] == names[j]);
                            }
                        }
                    },
                    None => {},
                }
            },
            Err(_) => {},
        }
    } else {
        assert(cp =~= Seq::<int>::empty());
    }
}

/// Every derived index definition fits the schema's arity.
proof fn lemma_secondary_defs_props(fields: Seq<FieldDefinition>, n: int)
    requires
        0 <= n <= fields.len(),
    ensures
        forall|j: int|
            0 <= j < secondary_defs(fields, n).len() ==> crate::index::index_def_wf(
                #[trigger] secondary_defs(fields, n)[j],
                fields.len() as nat,
            ),
    decreases n,
{
    if n > 0 {
        lemma_secondary_defs_props(fields, n - 1);
        let prev = secondary_defs(fields, n - 1);
        let added = defs_for_column(fields[n - 1].typ, n - 1);
        assert forall|j: int|
            0 <= j < secondary_defs(fields, n).len() implies crate::index::index_def_wf(
            #[trigger] secondary_defs(fields, n)[j],
            fields.len() as nat,
        ) by {
            if j < prev.len() {
                assert(secondary_defs(fields, n)[j] == prev[j]);
            } else {
                assert(secondary_defs(fields, n)[j] == added[j - prev.len()]);
                assert(seq![(n - 1) as usize][0] == (n - 1) as usize);
            }
        }
    }
}

/// The primary-key names an endpoint configures.
pub open spec fn pk_names(endpoint: &ApiEndpoint) -> Seq<Seq<char>> {
    match endpoint.index {
        Some(ix) => ix.primary_key.deep_view(),
        None => Seq::empty(),
    }
}

/// The primary key the output schema carries: the configured one where
/// present, else the upstream one.
pub open spec fn resolved_primary(conf: Seq<usize>, up: Seq<usize>) -> Seq<usize> {
    if conf.len() == 0 {
        up
    } else {
        conf
    }
}

/// Decide equality of two position lists.
fn usizes_eq(a: &Vec<usize>, b: &Vec<usize>) -> (r: bool)
    ensures
        r == (a@ == b@),
{
    if a.len() != b.len() {
        assert(a@ != b@);
        return false;
    }
    let mut i: usize = 0;
    while i < a.len()
        invariant
            i <= a@.len(),
            a@.len() == b@.len(),
            forall|j: int| 0 <= j < i ==> a@[j] == b@[j],
        decreases a@.len() - i,
    {
        if a[i] != b[i] {
            return false;
        }
        i = i + 1;
    }
    proof {
        assert(a@ =~= b@);
    }
    true
}

/// The factory that turns an endpoint's configuration into a running
/// sink: it decides the output schema and its indexes, opens or creates
/// the backing cache, and hands the sink its notification channel.
#[derive(Debug)]
pub struct CacheSinkFactory {
    pub api_endpoint: ApiEndpoint,
    pub notifier: Option<NotificationChannel>,
    pub settings: CacheSinkSettings,
}

impl CacheSinkFactory {
    pub fn new(
        api_endpoint: ApiEndpoint,
        notifier: Option<NotificationChannel>,
        settings: CacheSinkSettings,
    ) -> (r: Result<Self, ExecutionError>)
        ensures
            r matches Ok(f) && f.api_endpoint.name@ == api_endpoint.name@ && f.notifier == notifier,
    {
        Ok(CacheSinkFactory { api_endpoint, notifier, settings })
    }

    /// The one input port a sink consumes.
    pub fn get_input_ports(&self) -> (r: Vec<u16>)
        ensures
            r@ == seq![DEFAULT_PORT_HANDLE],
    {
        let mut r: Vec<u16> = Vec::new();
        r.push(DEFAULT_PORT_HANDLE);
        proof {
            assert(r@ =~= seq![DEFAULT_PORT_HANDLE]);
        }
        r
    }

    /// Decide the output schema: merge the endpoint-configured primary
    /// key with the upstream-computed one — a conflict between the two
    /// fails construction — tag the schema, and derive the secondary
    /// indexes from the column types.
    pub fn get_output_schema(&self, input_schema: &Schema) -> (r: Result<
        (Schema, Vec<IndexDefinition>),
        ExecutionError,
    >)
        requires
            input_schema.wf(),
            forall|a: int, b: int|
                0 <= a < b < pk_names(&self.api_endpoint).len() ==> pk_names(&self.api_endpoint)[a]
                    != pk_names(&self.api_endpoint)[b],
        ensures
            ({
                let fields = input_schema.fields@;
                let up = input_schema.primary_index@;
                match r {
                    Ok((s, defs)) => {
                        &&& configured_positions(fields, pk_names(&self.api_endpoint)) matches Ok(
                        cp)
                        &&& ({
                            let cp = configured_positions(
                                fields,
                                pk_names(&self.api_endpoint),
                            )->Ok_0;
                            &&& (cp.len() == 0 || up.len() == 0 || s.primary_index@.map(
                                |_i: int, p: usize| p as int,
                            ) == cp)
                            &&& (cp.len() == 0 ==> s.primary_index@ == up)
                            &&& (cp.len() > 0 ==> s.primary_index@.map(|_i: int, p: usize| p as int)
                                == cp)
                            &&& (cp.len() > 0 && up.len() > 0 ==> up.map(
                                |_i: int, p: usize| p as int,
                            ) == cp)
                        })
                        &&& s.identifier == Some(
                            SchemaIdentifier { id: DEFAULT_PORT_HANDLE as u32, version: 1u16 },
                        )
                        &&& s.fields@.len() == fields.len()
                        &&& forall|i: int|
                            0 <= i < fields.len() ==> (#[trigger] s.fields@[i]).typ
                                == fields[i].typ && s.fields@[i].name@ == fields[i].name@
                        &&& s.wf()
                        &&& defs.deep_view() == secondary_defs(fields, fields.len() as int)
                        &&& forall|i: int|
                            0 <= i < defs@.len() ==> crate::index::index_def_wf(
                                (#[trigger] defs@[i]).deep_view(),
                                s.fields@.len() as nat,
                            )
                    },
                    Err(e) => match e {
                        ExecutionError::FieldNotFound(n) => configured_positions(
                            fields,
                            pk_names(&self.api_endpoint),
                        ) == Err::<Seq<int>, Seq<char>>(n@),
                        ExecutionError::MismatchPrimaryKey {
                            endpoint_name,
                            expected,
                            actual,
                        } => {
                            &&& endpoint_name@ == self.api_endpoint.name@
                            &&& expected.deep_view() == up.map(
                                |_i: int, c: usize| fields[c as int].name@,
                            )
                            &&& configured_positions(
                                fields,
                                pk_names(&self.api_endpoint),
                            ) matches Ok(cp) && cp.len() > 0 && up.len() > 0 && up.map(
                                |_i: int, p: usize| p as int,
                            ) != cp && actual.deep_view().len() == cp.len() && (forall|j: int|
                                0 <= j < cp.len() ==> actual.deep_view()[j] == fields[(
                                #[trigger] cp[j])].name@)
                        },
                        _ => false,
                    },
                }
            }),
    {
        let ghost fields = input_schema.fields@;
        let ghost names = pk_names(&self.api_endpoint);
        let configured: Vec<usize> = match &self.api_endpoint.index {
            Some(ix) => {
                match create_primary_indexes(input_schema, ix) {
                    Ok(c) => c,
                    Err(e) => {
                        return Err(e);
                    },
                }
            },
            None => {
                let c: Vec<usize> = Vec::new();
                proof {
                    assert(names =~= Seq::<Seq<char>>::empty());
                    assert(c@.map(|_i: int, p: usize| p as int) =~= Seq::<int>::empty());
                }
                c
            },
        };
        let ghost cp = c_positions_of(configured@);
        proof {
            assert(configured_positions(fields, names) == Ok::<Seq<int>, Seq<char>>(cp));
            lemma_configured_ok_props(fields, names, cp);
        }
        let mut schema = input_schema.clone();
        if !configured.is_empty() {
            if !schema.primary_index.is_empty() {
                if !usizes_eq(&schema.primary_index, &configured) {
                    proof {
                        assert(schema.primary_index@.map(|_i: int, p: usize| p as int) != cp) by {
                            if schema.primary_index@.map(|_i: int, p: usize| p as int) == cp {
                                let pi = schema.primary_index@;
                                let co = configured@;
                                assert(pi.map(|_i: int, p: usize| p as int).len() == pi.len());
                                assert forall|j: int| 0 <= j < pi.len() implies pi[j] == co[j] by {
                                    assert(pi.map(|_i: int, p: usize| p as int)[j] == pi[j] as int);
                                    assert(co.map(|_i: int, p: usize| p as int)[j] == co[j] as int);
                                }
                                assert(pi =~= co);
                            }
                        }
                    }
                    proof {
                        assert forall|j: int|
                            0 <= j < configured@.len() implies #[trigger] configured@[j]
                            < schema.fields@.len() by {
                            assert(configured@.map(|_i: int, p: usize| p as int)[j]
                                == configured@[j] as int);
                            assert(cp[j] < fields.len());
                        }
                    }
                    let expected = get_field_names(&schema, &schema.primary_index);
                    let actual = get_field_names(&schema, &configured);
                    proof {
                        let up = input_schema.primary_index@;
                        let upnames = up.map(|_i: int, c: usize| fields[c as int].name@);
                        assert(expected.deep_view().len() == up.len());
                        assert forall|j: int|
                            0 <= j < up.len() implies expected.deep_view()[j] == upnames[j] by {
                            assert(expected.deep_view()[j] == schema.fields@[up[j] as int].name@);
                            assert(upnames[j] == fields[up[j] as int].name@);
                            assert(up[j] < fields.len());
                            let uj = up[j] as int;
                            assert(schema.fields@[uj].typ == fields[uj].typ);
                            assert(schema.fields@[uj].name@ == fields[uj].name@);
                        }
                        assert(expected.deep_view() =~= upnames);
                        assert(cp.len() == configured@.len()) by {
                            assert(cp == configured@.map(|_i: int, p: usize| p as int));
                        }
                        assert(actual.deep_view().len() == cp.len());
                        assert forall|j: int|
                            0 <= j < cp.len() implies actual.deep_view()[j] == fields[(
                        #[trigger] cp[j])].name@ by {
                            assert(configured@.map(|_i: int, p: usize| p as int)[j]
                                == configured@[j] as int);
                            let cj = configured@[j] as int;
                            assert(actual.deep_view()[j] == schema.fields@[cj].name@);
                            assert(cp[j] < fields.len());
                            assert(schema.fields@[cj].typ == fields[cj].typ);
                            assert(schema.fields@[cj].name@ == fields[cj].name@);
                        }
                    }
                    return Err(
                        ExecutionError::MismatchPrimaryKey {
                            endpoint_name: self.api_endpoint.name.clone(),
                            expected,
                            actual,
                        },
                    );
                }
            }
            schema.primary_index = configured;
        }
        schema.identifier = Some(SchemaIdentifier { id: DEFAULT_PORT_HANDLE as u32, version: 1 });
        proof {
            let pi = schema.primary_index@;
            if cp.len() > 0 {
                assert(pi.map(|_i: int, p: usize| p as int) == cp);
                assert(pi.len() == cp.len());
                assert forall|j: int| 0 <= j < pi.len() implies #[trigger] pi[j]
                    < schema.fields@.len() by {
                    assert(pi.map(|_i: int, p: usize| p as int)[j] == pi[j] as int);
                    assert(cp[j] < fields.len());
                }
                assert forall|a: int, b: int|
                    0 <= a < b < pi.len() implies pi[a] != pi[b] by {
                    assert(pi.map(|_i: int, p: usize| p as int)[a] == pi[a] as int);
                    assert(pi.map(|_i: int, p: usize| p as int)[b] == pi[b] as int);
                    assert(fields[cp[a]].name@ == names[a]);
                    assert(fields[cp[b]].name@ == names[b]);
                }
                assert(crate::records::primary_index_wf(pi, schema.fields@.len() as nat));
                assert(schema.wf());
            } else {
                assert(pi == input_schema.primary_index@);
                assert(schema.wf());
            }
        }
        let defs = derive_secondary_indexes(&schema);
        proof {
            lemma_secondary_defs_congruence(schema.fields@, fields, fields.len() as int);
        }
        Ok((schema, defs))
    }
}

/// The integer views of a position list.
pub open spec fn c_positions_of(s: Seq<usize>) -> Seq<int> {
    s.map(|_i: int, p: usize| p as int)
}

/// Derive the automatic secondary indexes from the column types.
fn derive_secondary_indexes(schema: &Schema) -> (r: Vec<IndexDefinition>)
    ensures
        r.deep_view() == secondary_defs(schema.fields@, schema.fields@.len() as int),
        forall|i: int|
            0 <= i < r@.len() ==> crate::index::index_def_wf(
                (#[trigger] r@[i]).deep_view(),
                schema.fields@.len() as nat,
            ),
{
    let ghost fields = schema.fields@;
    let mut r: Vec<IndexDefinition> = Vec::new();
    let mut i: usize = 0;
    proof {
        assert(r.deep_view() =~= secondary_defs(fields, 0));
    }
    while i < schema.fields.len()
        invariant
            fields == schema.fields@,
            i <= fields.len(),
            r.deep_view() =~= secondary_defs(fields, i as int),
        decreases fields.len() - i,
    {
        let ghost prev = r.deep_view();
        match schema.fields[i].typ {
            FieldType::UInt | FieldType::Int | FieldType::Float | FieldType::Boolean
                | FieldType::Decimal | FieldType::Timestamp | FieldType::Date | FieldType::Point => {
                let mut cols: Vec<usize> = Vec::new();
                cols.push(i);
                proof {
                    assert(cols@ =~= seq![i]);
                }
                r.push(IndexDefinition::SortedInverted(cols));
            },
            FieldType::String => {
                let mut cols: Vec<usize> = Vec::new();
                cols.push(i);
                proof {
                    assert(cols@ =~= seq![i]);
                }
                r.push(IndexDefinition::SortedInverted(cols));
                r.push(IndexDefinition::FullText(i));
            },
            FieldType::Text | FieldType::Binary | FieldType::Bson => {},
        }
        proof {
            assert(r.deep_view() =~= prev + defs_for_column(fields[i as int].typ, i as int));
            assert(r.deep_view() =~= secondary_defs(fields, i as int + 1));
        }
        i = i + 1;
    }
    proof {
        lemma_secondary_defs_props(fields, fields.len() as int);
        assert forall|i: int|
            0 <= i < r@.len() implies crate::index::index_def_wf(
            (#[trigger] r@[i]).deep_view(),
            schema.fields@.len() as nat,
        ) by {
            assert(r.deep_view()[i] == r@[i].deep_view());
            assert(r.deep_view()[i] == secondary_defs(fields, fields.len() as int)[i]);
        }
    }
    r
}

/// The derived indexes depend only on the column types.
proof fn lemma_secondary_defs_congruence(
    f1: Seq<FieldDefinition>,
    f2: Seq<FieldDefinition>,
    n: int,
)
    requires
        n <= f1.len(),
        n <= f2.len(),
        forall|i: int| 0 <= i < n ==> (#[trigger] f1[i]).typ == f2[i].typ,
    ensures
        secondary_defs(f1, n) == secondary_defs(f2, n),
    decreases n,
{
    if n > 0 {
        lemma_secondary_defs_congruence(f1, f2, n - 1);
    }
}

/// A notification about one applied operation, for the serving layer.
#[derive(Debug)]
pub enum ApiEvent {
    Insert { id: u64, record: Record },
    Update { old: Record, new: Record },
    Delete { old: Record, version: u32 },
}

/// Mathematical view of a notification event.
pub enum ApiEventV {
    Insert { id: u64, record: RecordV },
    Update { old: RecordV, new: RecordV },
    Delete { old: RecordV, version: u32 },
}

impl View for ApiEvent {
    type V = ApiEventV;

    open spec fn view(&self) -> ApiEventV {
        match self {
            ApiEvent::Insert { id, record } => ApiEventV::Insert { id: *id, record: record@ },
            ApiEvent::Update { old, new } => ApiEventV::Update { old: old@, new: new@ },
            ApiEvent::Delete { old, version } => ApiEventV::Delete {
                old: old@,
                version: *version,
            },
        }
    }
}

/// One message on the notification channel: the endpoint it concerns and
/// the applied event.
#[derive(Debug)]
pub struct PipelineResponse {
    pub endpoint: String,
    pub api_event: ApiEvent,
}

/// Mathematical view of a notification message.
pub struct PipelineResponseV {
    pub endpoint: Seq<char>,
    pub api_event: ApiEventV,
}

impl View for PipelineResponse {
    type V = PipelineResponseV;

    open spec fn view(&self) -> PipelineResponseV {
        PipelineResponseV { endpoint: self.endpoint@, api_event: self.api_event@ }
    }
}

/// The sink's optional output channel: bounded, non-blocking. A full
/// channel refuses the message — backpressure is a hard error for the
/// sender, never a silent drop.
#[derive(Debug)]
pub struct NotificationChannel {
    pub capacity: usize,
    pub queue: Vec<PipelineResponse>,
}

impl NotificationChannel {
    /// The messages accepted so far, oldest first.
    pub open spec fn messages(&self) -> Seq<PipelineResponseV> {
        self.queue@.map(|_i: int, m: PipelineResponse| m@)
    }

    pub fn new(capacity: usize) -> (r: Self)
        ensures
            r.capacity == capacity,
            r.messages() == Seq::<PipelineResponseV>::empty(),
    {
        let r = NotificationChannel { capacity, queue: Vec::new() };
        proof {
            assert(r.messages() =~= Seq::<PipelineResponseV>::empty());
        }
        r
    }

    /// Accept the message if there is room, else hand it back.
    pub fn try_send(&mut self, msg: PipelineResponse) -> (r: Result<(), PipelineResponse>)
        ensures
            final(self).capacity == old(self).capacity,
            match r {
                Ok(()) => old(self).messages().len() < old(self).capacity && final(self).messages()
                    == old(self).messages().push(msg@),
                Err(back) => old(self).messages().len() >= old(self).capacity && *final(self)
                    == *old(self) && back == msg,
            },
    {
        if self.queue.len() < self.capacity {
            let ghost prev = self.messages();
            let ghost mv = msg@;
            self.queue.push(msg);
            proof {
                assert(self.messages() =~= prev.push(mv));
            }
            Ok(())
        } else {
            Err(msg)
        }
    }

    /// Hand out everything received, emptying the channel; the consumer
    /// side of the fan-out.
    pub fn drain(&mut self) -> (r: Vec<PipelineResponse>)
        ensures
            final(self).capacity == old(self).capacity,
            final(self).messages() == Seq::<PipelineResponseV>::empty(),
            r@.map(|_i: int, m: PipelineResponse| m@) == old(self).messages(),
    {
        let mut out: Vec<PipelineResponse> = Vec::new();
        std::mem::swap(&mut out, &mut self.queue);
        proof {
            assert(self.messages() =~= Seq::<PipelineResponseV>::empty());
        }
        out
    }
}

/// The registry of named caches: alias names mapped onto physical names,
/// so a logical table can be remapped without relocating data.
#[derive(Debug)]
pub struct CacheManager {
    pub aliases: Vec<(String, String)>,
}

impl CacheManager {
    /// The alias pairs, with names abstracted to their views.
    pub open spec fn alias_pairs(&self) -> Seq<(Seq<char>, Seq<char>)> {
        self.aliases@.map(|_i: int, e: (String, String)| (e.0@, e.1@))
    }

    /// The alias table as a map.
    pub open spec fn alias_map(&self) -> Map<Seq<char>, Seq<char>> {
        crate::alist::alist_map(self.alias_pairs())
    }

    pub open spec fn wf(&self) -> bool {
        crate::alist::keys_distinct(self.alias_pairs())
    }

    pub fn new() -> (r: Self)
        ensures
            r.wf(),
            r.alias_map() == Map::<Seq<char>, Seq<char>>::empty(),
    {
        let r = CacheManager { aliases: Vec::new() };
        proof {
            assert(r.alias_pairs() =~= Seq::<(Seq<char>, Seq<char>)>::empty());
        }
        r
    }

    /// Find an alias entry.
    fn find_alias(&self, name: &String) -> (r: Option<usize>)
        ensures
            match r {
                Some(i) => i < self.alias_pairs().len() && self.alias_pairs()[i as int].0 == name@,
                None => forall|i: int|
                    0 <= i < self.alias_pairs().len() ==> (#[trigger] self.alias_pairs()[i]).0
                        != name@,
            },
    {
        let mut i: usize = 0;
        while i < self.aliases.len()
            invariant
                i <= self.aliases@.len(),
                forall|j: int| 0 <= j < i ==> (#[trigger] self.alias_pairs()[j]).0 != name@,
            decreases self.aliases@.len() - i,
        {
            proof {
                assert(self.alias_pairs()[i as int].0 == self.aliases@[i as int].0@);
            }
            if self.aliases[i].0.eq(name) {
                return Some(i);
            }
            i = i + 1;
        }
        None
    }

    /// Register (or move) an alias onto a physical name.
    pub fn create_alias(&mut self, real_name: &String, alias: &String) -> (r: Result<
        (),
        CacheError,
    >)
        requires
            old(self).wf(),
        ensures
            final(self).wf(),
            r is Ok,
            final(self).alias_map() == old(self).alias_map().insert(alias@, real_name@),
    {
        proof {
            crate::alist::lemma_alist_contains(self.alias_pairs(), alias@);
        }
        match self.find_alias(alias) {
            Some(i) => {
                let ghost p0 = self.alias_pairs();
                proof {
                    crate::alist::lemma_alist_remove(p0, i as int);
                }
                self.aliases.remove(i);
                proof {
                    assert(self.alias_pairs() =~= p0.remove(i as int));
                    let ap = self.alias_pairs();
                    assert forall|j: int|
                        0 <= j < ap.len() implies (#[trigger] ap[j]).0 != alias@ by {
                        let j0 = if j < i {
                            j
                        } else {
                            j + 1
                        };
                        assert(ap[j] == p0[j0]);
                        assert(p0[i as int].0 == alias@ && j0 != i);
                    }
                }
                let ghost p1 = self.alias_pairs();
                proof {
                    crate::alist::lemma_alist_push(p1, (alias@, real_name@));
                }
                self.aliases.push((alias.clone(), real_name.clone()));
                proof {
                    assert(self.alias_pairs() =~= p1.push((alias@, real_name@)));
                    assert(self.alias_map() =~= old(self).alias_map().insert(alias@, real_name@));
                }
                Ok(())
            },
            None => {
                let ghost p0 = self.alias_pairs();
                proof {
                    crate::alist::lemma_alist_push(p0, (alias@, real_name@));
                }
                self.aliases.push((alias.clone(), real_name.clone()));
                proof {
                    assert(self.alias_pairs() =~= p0.push((alias@, real_name@)));
                }
                Ok(())
            },
        }
    }

    /// Resolve a logical name: follow its alias if one is registered.
    pub fn resolve(&self, name: &String) -> (r: String)
        requires
            self.wf(),
        ensures
            r@ == if self.alias_map().dom().contains(name@) {
                self.alias_map()[name@]
            } else {
                name@
            },
    {
        proof {
            crate::alist::lemma_alist_contains(self.alias_pairs(), name@);
        }
        match self.find_alias(name) {
            Some(i) => {
                proof {
                    crate::alist::lemma_alist_index(self.alias_pairs(), i as int);
                    assert(self.alias_pairs()[i as int].1 == self.aliases@[i as int].1@);
                }
                self.aliases[i].1.clone()
            },
            None => name.clone(),
        }
    }
}

/// Open or create the cache backing an endpoint: a fresh cache under the
/// endpoint's name, with the endpoint registered as an alias of it.
pub fn open_or_create_cache(
    cache_manager: &mut CacheManager,
    name: &String,
    schema: Schema,
    secondary_indexes: Vec<IndexDefinition>,
) -> (r: Result<Cache, ExecutionError>)
    requires
        old(cache_manager).wf(),
        schema.wf(),
        forall|i: int|
            0 <= i < secondary_indexes@.len() ==> crate::index::index_def_wf(
                (#[trigger] secondary_indexes@[i]).deep_view(),
                schema.fields@.len() as nat,
            ),
    ensures
        final(cache_manager).wf(),
        final(cache_manager).alias_map() == old(cache_manager).alias_map().insert(name@, name@),
        match r {
            Ok(c) => {
                &&& c.wf()
                &&& c.name@ == name@
                &&& c.schema == schema
                &&& c.contents() == Map::<u64, RecordV>::empty()
                &&& c.pk_map() == Map::<Seq<FieldV>, u64>::empty()
                &&& c.store.pairs().len() == 0
                &&& c.store.next_id == 0
                &&& c.commits == 0
                &&& c.indexes@.len() == secondary_indexes@.len()
            },
            Err(_) => false,
        },
{
    let cache = Cache::new(name.clone(), schema, secondary_indexes);
    match cache_manager.create_alias(name, name) {
        Ok(()) => {},
        Err(_) => {
            proof {
                assert(false);
            }
        },
    }
    Ok(cache)
}

/// A record as the cache stores and reports it: the same values, tagged
/// with the schema identifier and a version.
pub open spec fn tagged(
    rec: RecordV,
    schema_id: Option<SchemaIdentifier>,
    version: Option<u32>,
) -> RecordV {
    RecordV { schema_id, values: rec.values, version }
}

/// The messages of an optional channel.
pub open spec fn channel_messages(n: &Option<NotificationChannel>) -> Seq<PipelineResponseV> {
    match n {
        Some(ch) => ch.messages(),
        None => Seq::empty(),
    }
}

/// The terminal node of a pipeline for one table: routes each delta into
/// the cache, tags records with schema identifier and version, and fans
/// each applied operation out as a notification.
pub struct CacheSink {
    pub cache: Cache,
    pub counter: usize,
    pub api_endpoint: ApiEndpoint,
    pub notifier: Option<NotificationChannel>,
}

impl CacheSink {
    pub open spec fn wf(&self) -> bool {
        self.cache.wf()
    }

    /// Build a sink over an opened cache; the running counter starts at
    /// the cache's current record count.
    pub fn new(cache: Cache, api_endpoint: ApiEndpoint, notifier: Option<NotificationChannel>) -> (r:
        Result<Self, ExecutionError>)
        requires
            cache.wf(),
        ensures
            match r {
                Ok(s) => {
                    &&& s.wf()
                    &&& s.cache == cache
                    &&& s.counter == cache.store.pairs().len()
                    &&& s.api_endpoint.name@ == api_endpoint.name@
                    &&& s.notifier == notifier
                },
                Err(_) => false,
            },
    {
        let query = QueryExpression::with_no_limit();
        let counter = cache.count(&query);
        Ok(CacheSink { cache, counter, api_endpoint, notifier })
    }

    /// Attempt the non-blocking notification send; a full channel is a
    /// hard error, an absent channel a no-op.
    fn notify(&mut self, msg: PipelineResponse) -> (r: Result<(), ExecutionError>)
        ensures
            final(self).cache == old(self).cache,
            final(self).counter == old(self).counter,
            final(self).api_endpoint == old(self).api_endpoint,
            match r {
                Ok(()) => match old(self).notifier {
                    Some(ch) => ch.messages().len() < ch.capacity && channel_messages(
                        &final(self).notifier,
                    ) == ch.messages().push(msg@),
                    None => final(self).notifier is None,
                },
                Err(e) => {
                    &&& e is NotificationChannelFull
                    &&& old(self).notifier matches Some(ch) && ch.messages().len() >= ch.capacity
                    &&& final(self).notifier == old(self).notifier
                },
            },
    {
        match &mut self.notifier {
            Some(ch) => {
                match ch.try_send(msg) {
                    Ok(()) => Ok(()),
                    Err(_) => Err(ExecutionError::NotificationChannelFull),
                }
            },
            None => Ok(()),
        }
    }

    /// Route one delta into the cache. An insert assigns version 0 under
    /// a fresh identifier; an update retires the old entry, stores the
    /// new values under the next version and remaps the key; a delete
    /// removes entry and key. The applied operation, with its records
    /// tagged by schema identifier and version, goes out as a
    /// notification. Batches are unrolled before they reach the sink.
    pub fn process(&mut self, _from_port: u16, op: Operation) -> (r: Result<(), ExecutionError>)
        requires
            old(self).wf(),
            old(self).counter < usize::MAX,
            old(self).cache.can_insert(),
            !(op@ is BatchInsert),
            crate::aggregation::op_arity_ok(op@, old(self).cache.arity() as int),
            op@ matches OperationV::Update { old: o, .. } ==> {
                let key = old(self).cache.key_of(o);
                old(self).cache.pk_map().dom().contains(key) ==> (old(self).cache.contents()[old(
                    self,
                ).cache.pk_map()[key]].version matches Some(v) && v < u32::MAX)
            },
        ensures
            final(self).wf(),
            old(self).cache.same_config(&final(self).cache),
            final(self).cache.commits == old(self).cache.commits,
            final(self).counter == old(self).counter + 1,
            final(self).api_endpoint == old(self).api_endpoint,
            ({
                let c0 = &old(self).cache;
                let sid = c0.schema.identifier;
                let ep = old(self).api_endpoint.name@;
                match op@ {
                    OperationV::Insert { new } => {
                        let stored = tagged(new, sid, Some(0u32));
                        let key = c0.key_of(new);
                        let id = c0.store.next_id;
                        let dup = c0.has_pk() && c0.pk_map().dom().contains(key);
                        match r {
                            Ok(()) => {
                                &&& !dup
                                &&& !channel_full(&old(self).notifier)
                                &&& final(self).cache.store.next_id == c0.store.next_id + 1
                                &&& final(self).cache.contents() == c0.contents().insert(id, stored)
                                &&& final(self).cache.pk_map() == if c0.has_pk() {
                                    c0.pk_map().insert(key, id)
                                } else {
                                    c0.pk_map()
                                }
                                &&& channel_messages(&final(self).notifier) == channel_messages(
                                    &old(self).notifier,
                                ) + notified(old(self).notifier, ep, ApiEventV::Insert { id, record: stored })
                            },
                            Err(e) => match e {
                                ExecutionError::SinkError(se) => {
                                    &&& se matches SinkError::CacheInsertFailed { endpoint, source }
                                        && endpoint@ == ep && source is DuplicateKey
                                    &&& dup
                                    &&& final(self).cache == old(self).cache
                                    &&& final(self).notifier == old(self).notifier
                                },
                                ExecutionError::NotificationChannelFull => {
                                    &&& !dup
                                    &&& channel_full(&old(self).notifier)
                                    &&& final(self).cache.store.next_id == c0.store.next_id + 1
                                    &&& final(self).cache.contents() == c0.contents().insert(
                                        id,
                                        stored,
                                    )
                                    &&& final(self).notifier == old(self).notifier
                                },
                                _ => false,
                            },
                        }
                    },
                    OperationV::Delete { old: orec } => {
                        let key = c0.key_of(orec);
                        let found = c0.pk_map().dom().contains(key);
                        let id = c0.pk_map()[key];
                        let version = c0.contents()[id].version->0;
                        let gone = tagged(orec, sid, Some(version));
                        match r {
                            Ok(()) => {
                                &&& found
                                &&& !channel_full(&old(self).notifier)
                                &&& final(self).cache.store.next_id == c0.store.next_id
                                &&& final(self).cache.contents() == c0.contents().remove(id)
                                &&& final(self).cache.pk_map() == c0.pk_map().remove(key)
                                &&& channel_messages(&final(self).notifier) == channel_messages(
                                    &old(self).notifier,
                                ) + notified(old(self).notifier, ep, ApiEventV::Delete { old: gone, version })
                            },
                            Err(e) => match e {
                                ExecutionError::SinkError(se) => {
                                    &&& se matches SinkError::CacheDeleteFailed { endpoint, source }
                                        && endpoint@ == ep && source is NotFound
                                    &&& !found
                                    &&& final(self).cache == old(self).cache
                                    &&& final(self).notifier == old(self).notifier
                                },
                                ExecutionError::NotificationChannelFull => {
                                    &&& found
                                    &&& channel_full(&old(self).notifier)
                                    &&& final(self).cache.store.next_id == c0.store.next_id
                                    &&& final(self).cache.contents() == c0.contents().remove(id)
                                    &&& final(self).notifier == old(self).notifier
                                },
                                _ => false,
                            },
                        }
                    },
                    OperationV::Update { old: orec, new } => {
                        let key = c0.key_of(orec);
                        let new_key = c0.key_of(new);
                        let found = c0.pk_map().dom().contains(key);
                        let old_id = c0.pk_map()[key];
                        let old_version = c0.contents()[old_id].version->0;
                        let stored = tagged(new, sid, Some((old_version + 1) as u32));
                        let replaced = tagged(orec, sid, Some(old_version));
                        match r {
                            Ok(()) => {
                                &&& found
                                &&& !channel_full(&old(self).notifier)
                                &&& final(self).cache.store.next_id == c0.store.next_id + 1
                                &&& ({
                                    let new_id = final(self).cache.pk_map()[new_key];
                                    &&& final(self).cache.contents() == c0.contents().remove(
                                        old_id,
                                    ).insert(new_id, stored)
                                    &&& final(self).cache.pk_map() == c0.pk_map().remove(
                                        key,
                                    ).insert(new_key, new_id)
                                    &&& !c0.contents().dom().contains(new_id)
                                })
                                &&& channel_messages(&final(self).notifier) == channel_messages(
                                    &old(self).notifier,
                                ) + notified(old(self).notifier, ep, ApiEventV::Update { old: replaced, new: stored })
                            },
                            Err(e) => match e {
                                ExecutionError::SinkError(se) => {
                                    &&& se matches SinkError::CacheUpdateFailed { endpoint, source }
                                        && endpoint@ == ep && (source is NotFound <==> !found) && (
                                    source is DuplicateKey ==> found && new_key != key
                                        && c0.pk_map().dom().contains(new_key))
                                    &&& final(self).cache == old(self).cache
                                    &&& final(self).notifier == old(self).notifier
                                },
                                ExecutionError::NotificationChannelFull => {
                                    &&& found
                                    &&& channel_full(&old(self).notifier)
                                    &&& final(self).cache.store.next_id == c0.store.next_id + 1
                                    &&& ({
                                        let new_id = final(self).cache.pk_map()[new_key];
                                        &&& final(self).cache.contents() == c0.contents().remove(
                                            old_id,
                                        ).insert(new_id, stored)
                                        &&& final(self).cache.pk_map() == c0.pk_map().remove(
                                            key,
                                        ).insert(new_key, new_id)
                                    })
                                    &&& final(self).notifier == old(self).notifier
                                },
                                _ => false,
                            },
                        }
                    },
                    OperationV::BatchInsert { .. } => false,
                }
            }),
    {
        self.counter = self.counter + 1;
        let ghost c0 = self.cache;
        match op {
            Operation::Insert { new } => {
                let mut new = new;
                new.schema_id = self.cache.schema.identifier;
                proof {
                    assert(new.values.deep_view().len() == new.values@.len());
                }
                let id = match self.cache.insert(&mut new) {
                    Ok(id) => id,
                    Err(e) => {
                        return Err(
                            ExecutionError::SinkError(
                                SinkError::CacheInsertFailed {
                                    endpoint: self.api_endpoint.name.clone(),
                                    source: e,
                                },
                            ),
                        );
                    },
                };
                proof {
                    assert(new@ == tagged(op@->Insert_new, c0.schema.identifier, Some(0u32)));
                }
                let msg = PipelineResponse {
                    endpoint: self.api_endpoint.name.clone(),
                    api_event: ApiEvent::Insert { id, record: new },
                };
                let ghost mv = msg@;
                let res = self.notify(msg);
                proof {
                    match old(self).notifier {
                        Some(ch) => {
                            if res is Ok {
                                assert(channel_messages(&self.notifier) =~= ch.messages() + seq![
                                    mv,
                                ]);
                            }
                        },
                        None => {},
                    }
                }
                res
            },
            Operation::Delete { old: o } => {
                let mut old_rec = o;
                old_rec.schema_id = self.cache.schema.identifier;
                proof {
                    assert(old_rec.values.deep_view().len() == old_rec.values@.len());
                }
                let key = get_primary_key(&self.cache.schema.primary_index, &old_rec.values);
                proof {
                    assert(key.deep_view() == c0.key_of(old_rec@));
                }
                let version = match self.cache.delete(&key) {
                    Ok(v) => v,
                    Err(e) => {
                        return Err(
                            ExecutionError::SinkError(
                                SinkError::CacheDeleteFailed {
                                    endpoint: self.api_endpoint.name.clone(),
                                    source: e,
                                },
                            ),
                        );
                    },
                };
                old_rec.version = Some(version);
                proof {
                    assert(old_rec@ == tagged(
                        op@->Delete_old,
                        c0.schema.identifier,
                        Some(version),
                    ));
                }
                let msg = PipelineResponse {
                    endpoint: self.api_endpoint.name.clone(),
                    api_event: ApiEvent::Delete { old: old_rec, version },
                };
                let ghost mv = msg@;
                let res = self.notify(msg);
                proof {
                    match old(self).notifier {
                        Some(ch) => {
                            if res is Ok {
                                assert(channel_messages(&self.notifier) =~= ch.messages() + seq![
                                    mv,
                                ]);
                            }
                        },
                        None => {},
                    }
                }
                res
            },
            Operation::Update { old: o, new } => {
                let mut old_rec = o;
                let mut new = new;
                old_rec.schema_id = self.cache.schema.identifier;
                new.schema_id = self.cache.schema.identifier;
                proof {
                    assert(old_rec.values.deep_view().len() == old_rec.values@.len());
                    assert(new.values.deep_view().len() == new.values@.len());
                }
                let key = get_primary_key(&self.cache.schema.primary_index, &old_rec.values);
                proof {
                    assert(key.deep_view() == c0.key_of(old_rec@));
                }
                let old_version = match self.cache.update(&key, &mut new) {
                    Ok(v) => v,
                    Err(e) => {
                        return Err(
                            ExecutionError::SinkError(
                                SinkError::CacheUpdateFailed {
                                    endpoint: self.api_endpoint.name.clone(),
                                    source: e,
                                },
                            ),
                        );
                    },
                };
                old_rec.version = Some(old_version);
                proof {
                    assert(old_rec@ == tagged(
                        op@->Update_old,
                        c0.schema.identifier,
                        Some(old_version),
                    ));
                    assert(new@ == tagged(
                        op@->Update_new,
                        c0.schema.identifier,
                        Some((old_version + 1) as u32),
                    ));
                    assert(c0.key_of(new@) == c0.key_of(op@->Update_new));
                }
                let msg = PipelineResponse {
                    endpoint: self.api_endpoint.name.clone(),
                    api_event: ApiEvent::Update { old: old_rec, new },
                };
                let ghost mv = msg@;
                let res = self.notify(msg);
                proof {
                    match old(self).notifier {
                        Some(ch) => {
                            if res is Ok {
                                assert(channel_messages(&self.notifier) =~= ch.messages() + seq![
                                    mv,
                                ]);
                            }
                        },
                        None => {},
                    }
                }
                res
            },
            Operation::BatchInsert { .. } => {
                proof {
                    assert(false);
                }
                Err(ExecutionError::SchemaNotInitialized)
            },
        }
    }

    /// An epoch boundary: finalize the transaction; everything processed
    /// since the last commit becomes visible atomically.
    pub fn commit(&mut self, _epoch: &Epoch) -> (r: Result<(), ExecutionError>)
        requires
            old(self).wf(),
            old(self).cache.commits < u64::MAX,
        ensures
            final(self).wf(),
            old(self).cache.same_config(&final(self).cache),
            final(self).cache.contents() == old(self).cache.contents(),
            final(self).cache.pk_map() == old(self).cache.pk_map(),
            final(self).cache.store == old(self).cache.store,
            final(self).cache.commits == old(self).cache.commits + 1,
            final(self).counter == old(self).counter,
            final(self).notifier == old(self).notifier,
            r is Ok,
    {
        match self.cache.commit() {
            Ok(()) => Ok(()),
            Err(e) => {
                proof {
                    assert(false);
                }
                Err(
                    ExecutionError::SinkError(
                        SinkError::CacheCommitTransactionFailed {
                            endpoint: self.api_endpoint.name.clone(),
                            source: e,
                        },
                    ),
                )
            },
        }
    }
}

/// The cached table mirrors a downstream view of group rows: exactly the
/// viewed groups resolve, and each resolves to a record carrying its
/// row's values (the cache adds schema tag and version on top).
pub open spec fn cache_mirrors(
    pk: Map<Seq<FieldV>, u64>,
    cm: Map<u64, RecordV>,
    d: Map<Seq<FieldV>, RecordV>,
) -> bool {
    &&& forall|g: Seq<FieldV>| #[trigger] d.dom().contains(g) <==> pk.dom().contains(g)
    &&& forall|g: Seq<FieldV>| #[trigger]
        d.dom().contains(g) ==> cm.dom().contains(pk[g]) && cm[pk[g]].values == d[g].values
}

/// The key map points only at live records, and no two keys share one.
pub open spec fn pk_map_sound(pk: Map<Seq<FieldV>, u64>, cm: Map<u64, RecordV>) -> bool {
    &&& forall|g: Seq<FieldV>| #[trigger] pk.dom().contains(g) ==> cm.dom().contains(pk[g])
    &&& forall|g1: Seq<FieldV>, g2: Seq<FieldV>|
        pk.dom().contains(g1) && pk.dom().contains(g2) && #[trigger] pk[g1] == #[trigger] pk[g2]
            ==> g1 == g2
}

/// Replay correctness through the sink, one applied delta at a time: a
/// cache whose table mirrors the downstream view of an operator's output
/// stream — rows keyed by their group columns — still mirrors it after
/// `process` applies the next emitted delta (the hypotheses are exactly
/// what `process`'s contract ensures of the mutation). Together with the
/// operator's replay lemmas, induction over any delta sequence: after any
/// prefix the cache holds one record per live group, carrying a current
/// aggregate value, and none for an emptied group.
pub proof fn lemma_sink_replay_step(
    pk0: Map<Seq<FieldV>, u64>,
    cm0: Map<u64, RecordV>,
    pk1: Map<Seq<FieldV>, u64>,
    cm1: Map<u64, RecordV>,
    d: Map<Seq<FieldV>, RecordV>,
    opv: OperationV,
    id: u64,
    old_id: u64,
)
    requires
        cache_mirrors(pk0, cm0, d),
        pk_map_sound(pk0, cm0),
        match opv {
            OperationV::Insert { new } => {
                let g = new.values.drop_last();
                &&& new.values.len() >= 1
                &&& !cm0.dom().contains(id)
                &&& cm1.dom().contains(id) && cm1[id].values == new.values
                &&& cm1 == cm0.insert(id, cm1[id])
                &&& pk1 == pk0.insert(g, id)
            },
            OperationV::Update { old, new } => {
                let g = new.values.drop_last();
                &&& new.values.len() >= 1
                &&& old.values.drop_last() == g
                &&& pk0.dom().contains(g) && old_id == pk0[g]
                &&& !cm0.dom().contains(id) && id != old_id
                &&& cm1.dom().contains(id) && cm1[id].values == new.values
                &&& cm1 == cm0.remove(old_id).insert(id, cm1[id])
                &&& pk1 == pk0.remove(g).insert(g, id)
            },
            OperationV::Delete { old } => {
                let g = old.values.drop_last();
                &&& old.values.len() >= 1
                &&& pk0.dom().contains(g) && old_id == pk0[g]
                &&& cm1 == cm0.remove(old_id)
                &&& pk1 == pk0.remove(g)
            },
            OperationV::BatchInsert { .. } => false,
        },
    ensures
        cache_mirrors(pk1, cm1, crate::aggregation::replay(d, seq![opv])),
        pk_map_sound(pk1, cm1),
{
    reveal_with_fuel(crate::aggregation::replay, 2);
    assert(seq![opv].skip(1) =~= Seq::<OperationV>::empty());
    match opv {
        OperationV::Insert { new } => {
            let g = new.values.drop_last();
            let d1 = d.insert(g, new);
            assert(crate::aggregation::replay(d, seq![opv]) == d1);
            assert forall|g2: Seq<FieldV>| #[trigger]
                d1.dom().contains(g2) implies cm1.dom().contains(pk1[g2]) && cm1[pk1[g2]].values
                == d1[g2].values by {
                if g2 != g {
                    assert(d.dom().contains(g2));
                    assert(pk0[g2] != id) by {
                        assert(cm0.dom().contains(pk0[g2]));
                    }
                }
            }
            assert forall|g1: Seq<FieldV>, g2: Seq<FieldV>|
                pk1.dom().contains(g1) && pk1.dom().contains(g2) && #[trigger] pk1[g1]
                    == #[trigger] pk1[g2] implies g1 == g2 by {
                if g1 != g && g2 != g {
                    assert(pk0[g1] == pk0[g2]);
                } else if g1 == g && g2 != g {
                    assert(cm0.dom().contains(pk0[g2]));
                } else if g2 == g && g1 != g {
                    assert(cm0.dom().contains(pk0[g1]));
                }
            }
        },
        OperationV::Update { old, new } => {
            let g = new.values.drop_last();
            let d1 = d.insert(g, new);
            assert(crate::aggregation::replay(d, seq![opv]) == d1);
            assert forall|g2: Seq<FieldV>| #[trigger]
                d1.dom().contains(g2) implies cm1.dom().contains(pk1[g2]) && cm1[pk1[g2]].values
                == d1[g2].values by {
                if g2 != g {
                    assert(d.dom().contains(g2));
                    assert(pk0[g2] != old_id) by {
                        if pk0[g2] == old_id {
                            assert(pk0[g2] == pk0[g]);
                        }
                    }
                    assert(pk0[g2] != id) by {
                        assert(cm0.dom().contains(pk0[g2]));
                    }
                }
            }
            assert forall|g1: Seq<FieldV>, g2: Seq<FieldV>|
                pk1.dom().contains(g1) && pk1.dom().contains(g2) && #[trigger] pk1[g1]
                    == #[trigger] pk1[g2] implies g1 == g2 by {
                if g1 != g && g2 != g {
                    assert(pk0[g1] == pk0[g2]);
                } else if g1 == g && g2 != g {
                    assert(cm0.dom().contains(pk0[g2]));
                } else if g2 == g && g1 != g {
                    assert(cm0.dom().contains(pk0[g1]));
                }
            }
        },
        OperationV::Delete { old } => {
            let g = old.values.drop_last();
            let d1 = d.remove(g);
            assert(crate::aggregation::replay(d, seq![opv]) == d1);
            assert forall|g2: Seq<FieldV>| #[trigger]
                d1.dom().contains(g2) implies cm1.dom().contains(pk1[g2]) && cm1[pk1[g2]].values
                == d1[g2].values by {
                assert(d.dom().contains(g2));
                assert(pk0[g2] != old_id) by {
                    if pk0[g2] == old_id {
                        assert(pk0[g2] == pk0[g]);
                    }
                }
            }
        },
        OperationV::BatchInsert { .. } => {},
    }
}

/// The bridge between operator output and cache keys: under a primary
/// index that selects the leading group columns, the key of a group's
/// output row is the group itself — so the sink's key map is keyed by
/// groups, as the replay lemmas assume.
pub proof fn lemma_group_row_key(pi: Seq<usize>, g: Seq<FieldV>, v: FieldV)
    requires
        pi.len() == g.len(),
        forall|i: int| 0 <= i < pi.len() ==> #[trigger] pi[i] == i,
    ensures
        crate::cache::record_key(pi, crate::aggregation::group_row(g, v).values) == g,
        crate::aggregation::group_row(g, v).values.drop_last() == g,
{
    let values = crate::aggregation::group_row(g, v).values;
    assert(crate::records::spec_primary_key(pi, values) =~= g) by {
        assert forall|i: int|
            0 <= i < pi.len() implies crate::records::spec_primary_key(pi, values)[i] == g[i] by {
            assert(values[pi[i] as int] == g.push(v)[i]);
        }
    }
    assert(values.drop_last() =~= g);
}

/// The composed law: where the downstream view carries, per live group, a
/// current aggregate value (the operator's replay invariant), a cache
/// that mirrors it holds exactly one record per live group — its group
/// columns followed by that value — and none for an emptied group.
pub proof fn lemma_sink_reflects_downstream(
    kind: crate::aggregation::AggregateKind,
    groups: Map<Seq<FieldV>, Seq<FieldV>>,
    d: Map<Seq<FieldV>, RecordV>,
    pk: Map<Seq<FieldV>, u64>,
    cm: Map<u64, RecordV>,
)
    requires
        crate::aggregation::downstream_ok(kind, groups, d),
        cache_mirrors(pk, cm, d),
    ensures
        forall|g: Seq<FieldV>| #[trigger] groups.dom().contains(g) <==> pk.dom().contains(g),
        forall|g: Seq<FieldV>| #[trigger]
            groups.dom().contains(g) ==> cm.dom().contains(pk[g]) && cm[pk[g]].values == g.push(
                d[g].values.last(),
            ) && crate::aggregation::agg_value_ok(kind, groups[g], d[g].values.last()),
{
    assert forall|g: Seq<FieldV>| #[trigger]
        groups.dom().contains(g) implies cm.dom().contains(pk[g]) && cm[pk[g]].values == g.push(
        d[g].values.last(),
    ) && crate::aggregation::agg_value_ok(kind, groups[g], d[g].values.last()) by {
        assert(d.dom().contains(g));
        assert(d[g] == crate::aggregation::group_row(g, d[g].values.last()));
    }
}

/// Whether the sink's channel exists and is full.
pub open spec fn channel_full(n: &Option<NotificationChannel>) -> bool {
    match n {
        Some(ch) => ch.messages().len() >= ch.capacity,
        None => false,
    }
}

/// What a successful send appends: one message when a channel is
/// attached, nothing otherwise.
pub open spec fn notified(
    n: Option<NotificationChannel>,
    endpoint: Seq<char>,
    event: ApiEventV,
) -> Seq<PipelineResponseV> {
    match n {
        Some(_) => seq![PipelineResponseV { endpoint, api_event: event }],
        None => Seq::empty(),
    }
}

impl CacheSinkFactory {
    /// Validate the endpoint's schema configuration before any row is
    /// processed: exactly the checks of the output-schema computation. It
    /// succeeds precisely when every configured key name resolves and the
    /// configured and upstream keys do not conflict.
    pub fn prepare(&self, input_schema: &Schema) -> (r: Result<(), ExecutionError>)
        requires
            input_schema.wf(),
            forall|a: int, b: int|
                0 <= a < b < pk_names(&self.api_endpoint).len() ==> pk_names(&self.api_endpoint)[a]
                    != pk_names(&self.api_endpoint)[b],
        ensures
            ({
                let fields = input_schema.fields@;
                let up = input_schema.primary_index@;
                let cpr = configured_positions(fields, pk_names(&self.api_endpoint));
                match r {
                    Ok(()) => cpr matches Ok(cp) && (cp.len() == 0 || up.len() == 0 || up.map(
                        |_i: int, p: usize| p as int,
                    ) == cp),
                    Err(e) => match e {
                        ExecutionError::FieldNotFound(n) => cpr == Err::<Seq<int>, Seq<char>>(n@),
                        ExecutionError::MismatchPrimaryKey { endpoint_name, expected, actual } => {
                            &&& endpoint_name@ == self.api_endpoint.name@
                            &&& expected.deep_view() == up.map(
                                |_i: int, c: usize| fields[c as int].name@,
                            )
                            &&& cpr matches Ok(cp) && cp.len() > 0 && up.len() > 0 && up.map(
                                |_i: int, p: usize| p as int,
                            ) != cp && actual.deep_view().len() == cp.len() && (forall|j: int|
                                0 <= j < cp.len() ==> actual.deep_view()[j] == fields[(
                                #[trigger] cp[j])].name@)
                        },
                        _ => false,
                    },
                }
            }),
    {
        match self.get_output_schema(input_schema) {
            Ok(_) => Ok(()),
            Err(e) => Err(e),
        }
    }

    /// Open or create the endpoint's cache for the decided output schema
    /// and hand the sink its channel. It succeeds precisely when the
    /// schema configuration validates; the fresh sink starts empty, its
    /// counter at zero, over the resolved primary key.
    pub fn build(self, cache_manager: &mut CacheManager, input_schema: &Schema) -> (r: Result<
        CacheSink,
        ExecutionError,
    >)
        requires
            old(cache_manager).wf(),
            input_schema.wf(),
            forall|a: int, b: int|
                0 <= a < b < pk_names(&self.api_endpoint).len() ==> pk_names(&self.api_endpoint)[a]
                    != pk_names(&self.api_endpoint)[b],
        ensures
            final(cache_manager).wf(),
            ({
                let fields = input_schema.fields@;
                let up = input_schema.primary_index@;
                let cpr = configured_positions(fields, pk_names(&self.api_endpoint));
                match r {
                    Ok(s) => {
                        &&& cpr matches Ok(cp) && (cp.len() == 0 || up.len() == 0 || up.map(
                            |_i: int, p: usize| p as int,
                        ) == cp)
                        &&& ({
                            let cp = cpr->Ok_0;
                            &&& (cp.len() == 0 ==> s.cache.schema.primary_index@ == up)
                            &&& (cp.len() > 0 ==> s.cache.schema.primary_index@.map(
                                |_i: int, p: usize| p as int,
                            ) == cp)
                        })
                        &&& s.cache.schema.identifier == Some(
                            SchemaIdentifier { id: DEFAULT_PORT_HANDLE as u32, version: 1u16 },
                        )
                        &&& s.wf()
                        &&& s.cache.name@ == self.api_endpoint.name@
                        &&& s.api_endpoint.name@ == self.api_endpoint.name@
                        &&& s.cache.contents() == Map::<u64, RecordV>::empty()
                        &&& s.cache.pk_map() == Map::<Seq<FieldV>, u64>::empty()
                        &&& s.cache.store.next_id == 0
                        &&& s.cache.commits == 0
                        &&& s.counter == 0
                        &&& s.notifier == self.notifier
                        &&& final(cache_manager).alias_map() == old(
                            cache_manager,
                        ).alias_map().insert(self.api_endpoint.name@, self.api_endpoint.name@)
                    },
                    Err(e) => {
                        &&& *final(cache_manager) == *old(cache_manager)
                        &&& match e {
                            ExecutionError::FieldNotFound(n) => cpr == Err::<Seq<int>, Seq<char>>(
                                n@,
                            ),
                            ExecutionError::MismatchPrimaryKey {
                                endpoint_name,
                                expected,
                                actual,
                            } => {
                                &&& endpoint_name@ == self.api_endpoint.name@
                                &&& expected.deep_view() == up.map(
                                    |_i: int, c: usize| fields[c as int].name@,
                                )
                                &&& cpr matches Ok(cp) && cp.len() > 0 && up.len() > 0 && up.map(
                                    |_i: int, p: usize| p as int,
                                ) != cp && actual.deep_view().len() == cp.len() && (forall|j: int|
                                    0 <= j < cp.len() ==> actual.deep_view()[j] == fields[(
                                    #[trigger] cp[j])].name@)
                            },
                            _ => false,
                        }
                    },
                }
            }),
    {
        let (schema, secondary_indexes) = match self.get_output_schema(input_schema) {
            Ok(p) => p,
            Err(e) => {
                return Err(e);
            },
        };
        let cache = match open_or_create_cache(
            cache_manager,
            &self.api_endpoint.name,
            schema,
            secondary_indexes,
        ) {
            Ok(c) => c,
            Err(_) => {
                proof {
                    assert(false);
                }
                return Err(ExecutionError::SchemaNotInitialized);
            },
        };
        match CacheSink::new(cache, self.api_endpoint, self.notifier) {
            Ok(s) => Ok(s),
            Err(_) => {
                proof {
                    assert(false);
                }
                Err(ExecutionError::SchemaNotInitialized)
            },
        }
    }
}

} // verus!
