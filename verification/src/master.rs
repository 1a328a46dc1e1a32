//! The master service: the tenant registry and the handlers of its RPCs.

use crate::buf::as_slice;
use crate::buf::bytes_seq;
use crate::buf::put_slice;
use crate::common::PACKET_UDP_LEN;
use crate::common::TableId;
use crate::common::UserId;
use crate::ext::Extension;
use crate::ext::ExtensionManager;
use crate::ext::load_yields;
use crate::ext::LoadError;
use crate::ext::NullDB;
use crate::model::dispatchable;
use crate::model::get_reply;
use crate::model::invoke_decodable;
use crate::model::lemma_get_answer;
use crate::model::lemma_invoke_answer;
use crate::model::seed_extension;
use crate::model::seed_extension_path;
use crate::model::seed_key;
use crate::model::seed_registry;
use crate::model::seed_table;
use crate::model::seed_value;
use crate::model::spec_dispatch;
use crate::model::spec_dispatch_get;
use crate::model::spec_dispatch_invoke;
use crate::model::spec_get;
use crate::model::spec_invoke_status;
use crate::model::spec_invoke_target;
use crate::model::spec_lookup;
use crate::model::status_reply;
use crate::model::RegistryMap;
use crate::model::TableMap;
use crate::model::TenantMap;
use crate::packet::Packet;
use crate::rpc::parse_rpc_opcode;
use crate::rpc::string_from_utf8;
use crate::table::Table;
use crate::wireformat::encode_le;
use crate::wireformat::le_bytes;
use crate::wireformat::lemma_get_response_round_trip;
use crate::wireformat::lemma_invoke_response_round_trip;
use crate::wireformat::lemma_le_bytes_len;
use crate::wireformat::GetRequest;
use crate::wireformat::GetResponse;
use crate::wireformat::InvokeRequest;
use crate::wireformat::InvokeResponse;
use crate::wireformat::OpCode;
use crate::wireformat::RpcStatus;
use crate::wireformat::GET_REQUEST_LEN;
use crate::wireformat::GET_RESPONSE_LEN;
use crate::wireformat::INVOKE_REQUEST_LEN;
use crate::wireformat::INVOKE_RESPONSE_LEN;
use crate::wireformat::STATUS_OFFSET;
use crate::wireformat::VALUE_LENGTH_OFFSET;
use bytes::Bytes;
use bytes::BytesMut;
use std::collections::HashMap;
use vstd::prelude::*;
use vstd::slice::slice_to_vec;

verus! {

broadcast use vstd::std_specs::hash::group_hash_axioms;

/// One tenant: an isolated namespace of tables.
pub struct User {
    id: UserId,
    tables: HashMap<TableId, Table>,
}

impl View for User {
    type V = TenantMap;

    closed spec fn view(&self) -> TenantMap {
        Map::new(
            |table: TableId| self.tables@.contains_key(table),
            |table: TableId| self.tables@[table]@,
        )
    }
}

impl User {
    /// The invariant of every tenant: each of its tables is well formed.
    pub closed spec fn wf(&self) -> bool {
        forall|table: TableId| #[trigger]
            self.tables@.contains_key(table) ==> self.tables@[table].wf()
    }

    /// The identifier of this tenant.
    pub closed spec fn id(&self) -> UserId {
        self.id
    }

    /// A tenant with the given identifier and no table.
    pub fn new(id: UserId) -> (user: User)
        ensures
            user.wf(),
            user.id() == id,
            user@ == Map::<TableId, TableMap>::empty(),
    {
        let user = User { id: id, tables: HashMap::new() };
        proof {
            assert(user@ =~= Map::<TableId, TableMap>::empty());
        }
        user
    }

    /// Creates the table `table_id`, holding the seed pair: a key of thirty
    /// bytes of value 1 and a value of a hundred bytes of value 91. A table
    /// that existed under that identifier is replaced.
    pub fn create_table(&mut self, table_id: u64)
        requires
            old(self).wf(),
        ensures
            final(self).wf(),
            final(self).id() == old(self).id(),
            final(self)@ == old(self)@.insert(table_id, seed_table()),
    {
        let mut table = Table::default();

        // The key and the value lie in one contiguous buffer.
        let mut value = BytesMut::with_capacity(130);
        let ones: Vec<u8> = vec![1u8; 30];
        let fill: Vec<u8> = vec![91u8; 100];
        put_slice(&mut value, ones.as_slice());
        put_slice(&mut value, fill.as_slice());
        let mut value: Bytes = value.freeze();

        let key: Bytes = value.split_to(30);
        proof {
            assert(bytes_seq(key) =~= seed_key());
            assert(bytes_seq(value) =~= seed_value());
        }
        table.put(key, value);
        proof {
            assert(table@ =~= seed_table());
        }
        self.tables.insert(table_id, table);
        proof {
            assert(final(self)@ =~= old(self)@.insert(table_id, seed_table()));
        }
    }

    /// The table `table_id` of this tenant, if it has one.
    pub fn table(&self, table_id: TableId) -> (table: Option<&Table>)
        requires
            self.wf(),
        ensures
            match table {
                Some(t) => t.wf() && self@.contains_key(table_id) && self@[table_id] == t@,
                None => !self@.contains_key(table_id),
            },
    {
        self.tables.get(&table_id)
    }
}

/// The master service: every tenant with its tables, and the extensions that
/// tenants may invoke.
pub struct Master<E: Extension> {
    users: HashMap<UserId, User>,
    extensions: ExtensionManager<E>,
}

impl<E: Extension> Master<E> {
    /// The invariant of the registry: every tenant is filed under its own
    /// identifier and is well formed, and so is the extension manager.
    pub closed spec fn wf(&self) -> bool {
        &&& self.extensions.wf()
        &&& forall|tenant: UserId| #[trigger]
            self.users@.contains_key(tenant) ==> self.users@[tenant].wf()
                && self.users@[tenant].id() == tenant
    }

    /// What each tenant owns.
    pub closed spec fn tenants(&self) -> RegistryMap {
        Map::new(
            |tenant: UserId| self.users@.contains_key(tenant),
            |tenant: UserId| self.users@[tenant]@,
        )
    }

    /// The extension bound to each tenant and name.
    pub closed spec fn extensions(&self) -> Map<(UserId, Seq<char>), E> {
        self.extensions@
    }

    /// What setting up the registry yields for each outcome of loading the
    /// seed extension. With a unit, the registry holds tenant 1 with table 1,
    /// which holds the seed pair, and the unit is bound to tenant 1 under the
    /// name `get`. Without one there is no registry.
    pub open spec fn provisioned(loaded: Option<E>, master: Result<Master<E>, LoadError>) -> bool {
        match loaded {
            Some(unit) => {
                &&& master matches Ok(m)
                &&& m.wf()
                &&& m.tenants() == seed_registry()
                &&& m.extensions() == Map::<(UserId, Seq<char>), E>::empty().insert(
                    (1u32, seed_extension()),
                    unit,
                )
            },
            None => master matches Err(e) && e == LoadError::NotLoadable,
        }
    }

    /// Sets up the registry from the outcome of loading the seed extension,
    /// as [`Self::provisioned`] says.
    pub fn provision(loaded: Option<E>) -> (master: Result<Master<E>, LoadError>)
        ensures
            Self::provisioned(loaded, master),
    {
        let mut user = User::new(1);
        user.create_table(1);

        let mut master = Master { users: HashMap::new(), extensions: ExtensionManager::new() };

        let id: UserId = user.id;
        master.users.insert(id, user);
        proof {
            assert(master.tenants() =~= seed_registry());
        }

        // Bind the get extension for this user.
        match master.extensions.install(loaded, 1, "get") {
            Ok(_) => Ok(master),
            Err(e) => Err(e),
        }
    }

    /// Sets up the registry of a starting server: tenant 1 with table 1, and
    /// the `get` extension loaded for tenant 1. The loader of `E` is called on
    /// the path of that extension, and what it hands back decides: with a
    /// unit there is a registry that binds it, without one there is none.
    pub fn new() -> (master: Result<Master<E>, LoadError>)
        ensures
            exists|loaded: Option<E>| #[trigger]
                load_yields(seed_extension_path(), loaded) && Self::provisioned(loaded, master),
            master matches Ok(m) ==> {
                &&& m.wf()
                &&& m.tenants() == seed_registry()
                &&& m.extensions().dom() == Set::<(UserId, Seq<char>)>::empty().insert(
                    (1u32, seed_extension()),
                )
            },
    {
        let loaded = E::load("../ext/get/target/release/libget.so");
        proof {
            assert(load_yields(seed_extension_path(), loaded));
        }
        let master = Self::provision(loaded);
        proof {
            if master is Ok {
                assert(master->Ok_0.extensions().dom() =~= Set::<
                    (UserId, Seq<char>),
                >::empty().insert((1u32, seed_extension())));
            }
        }
        master
    }

    /// Creates the table `table_id` for the tenant `tenant_id`, holding the
    /// seed pair, and tells whether it did: an unknown tenant gets no table.
    pub fn create_table(&mut self, tenant_id: UserId, table_id: TableId) -> (created: bool)
        requires
            old(self).wf(),
        ensures
            final(self).wf(),
            final(self).extensions() == old(self).extensions(),
            created == old(self).tenants().contains_key(tenant_id),
            created ==> final(self).tenants() == old(self).tenants().insert(
                tenant_id,
                old(self).tenants()[tenant_id].insert(table_id, seed_table()),
            ),
            !created ==> final(self).tenants() == old(self).tenants(),
    {
        match self.users.remove(&tenant_id) {
            None => {
                proof {
                    assert(final(self).tenants() =~= old(self).tenants());
                }
                false
            },
            Some(user) => {
                let mut user = user;
                user.create_table(table_id);
                self.users.insert(tenant_id, user);
                proof {
                    assert(final(self).tenants() =~= old(self).tenants().insert(
                        tenant_id,
                        old(self).tenants()[tenant_id].insert(table_id, seed_table()),
                    ));
                }
                true
            },
        }
    }

    /// Tells whether the tenant `tenant_id` is known.
    pub fn tenant_exists(&self, tenant_id: UserId) -> (exists: bool)
        requires
            self.wf(),
        ensures
            exists == self.tenants().contains_key(tenant_id),
    {
        self.users.contains_key(&tenant_id)
    }

    /// The table `table_id` of the tenant `tenant_id`; `None` when the tenant
    /// is unknown or has no such table.
    pub fn table(&self, tenant_id: UserId, table_id: TableId) -> (table: Option<&Table>)
        requires
            self.wf(),
        ensures
            match table {
                Some(t) => t.wf() && self.tenants().contains_key(tenant_id)
                    && self.tenants()[tenant_id].contains_key(table_id)
                    && self.tenants()[tenant_id][table_id] == t@,
                None => !self.tenants().contains_key(tenant_id)
                    || !self.tenants()[tenant_id].contains_key(table_id),
            },
    {
        match self.users.get(&tenant_id) {
            Some(user) => user.table(table_id),
            None => None,
        }
    }

    /// The extension bound to the tenant `tenant_id` under `name`, if any.
    pub fn extension(&self, tenant_id: UserId, name: &str) -> (unit: Option<&E>)
        requires
            self.wf(),
        ensures
            match unit {
                Some(u) => self.extensions().contains_key((tenant_id, name@))
                    && self.extensions()[(tenant_id, name@)] == *u,
                None => !self.extensions().contains_key((tenant_id, name@)),
            },
    {
        self.extensions.get(tenant_id, name)
    }

    /// Resolves the tenant, then the table, then the key, and stops at the
    /// first that is missing.
    fn lookup(&self, tenant_id: UserId, table_id: TableId, key: &[u8]) -> (found: Result<
        &Bytes,
        RpcStatus,
    >)
        requires
            self.wf(),
        ensures
            match found {
                Ok(value) => spec_lookup(self.tenants(), tenant_id, table_id, key@) == Ok::<
                    Seq<u8>,
                    RpcStatus,
                >(bytes_seq(*value)),
                Err(status) => spec_lookup(self.tenants(), tenant_id, table_id, key@) == Err::<
                    Seq<u8>,
                    RpcStatus,
                >(status),
            },
    {
        match self.users.get(&tenant_id) {
            None => Err(RpcStatus::StatusTenantDoesNotExist),
            Some(user) => match user.table(table_id) {
                None => Err(RpcStatus::StatusTableDoesNotExist),
                Some(table) => match table.get(key) {
                    None => Err(RpcStatus::StatusObjectDoesNotExist),
                    Some(value) => Ok(value),
                },
            },
        }
    }

    /// Handles a Get request: looks the key up in the named table of the
    /// named tenant and, if it is there, writes the value into the response.
    /// The response header receives the status, and on success the size of
    /// the response payload.
    ///
    /// `req_hdr` is the request's header, `request` the request with its
    /// cursor on that header, and `respons` the response with its cursor on a
    /// Get response header.
    pub fn get(&self, req_hdr: &GetRequest, request: &Packet, respons: &mut Packet)
        requires
            self.wf(),
            request.wf(),
            old(respons).wf(),
            old(respons)@.header_len() == GET_RESPONSE_LEN,
        ensures
            final(respons).wf(),
            ({
                let (status, value) = spec_get(
                    self.tenants(),
                    *req_hdr,
                    request@.payload_bytes(),
                    old(respons)@.room(),
                );
                final(respons)@ == get_reply(old(respons)@, status, value)
            }),
    {
        // Read fields of the request header.
        let tenant_id: UserId = req_hdr.common_header.tenant;
        let table_id: TableId = req_hdr.table_id;
        let key_length: u16 = req_hdr.key_length;
        let ghost before = respons@;

        // If the payload size is less than the key length, return an error.
        if request.get_payload().len() < key_length as usize {
            set_status(respons, RpcStatus::StatusMalformedRequest);
            proof {
                assert(before.appended(Seq::<u8>::empty()).bytes =~= before.bytes);
            }
            return ;
        }

        // Get a reference to the key.
        let (key, _) = request.get_payload().split_at(key_length as usize);

        // Resolve the tenant, the table and the key; on a hit, write the
        // value to the response payload.
        let status: RpcStatus = match self.lookup(tenant_id, table_id, key) {
            Err(status) => status,
            Ok(value) => match respons.add_to_payload_tail(as_slice(value)) {
                Ok(_) => RpcStatus::StatusOk,
                Err(_) => RpcStatus::StatusInternalError,
            },
        };
        proof {
            if status != RpcStatus::StatusOk {
                assert(before.appended(Seq::<u8>::empty()).bytes =~= before.bytes);
            }
        }

        if status == RpcStatus::StatusOk {
            // The RPC completed successfully. Update the response header
            // with the status and value length.
            let val_len: u32 = respons.get_payload().len() as u32;
            set_status(respons, status);
            let mut field: Vec<u8> = Vec::new();
            encode_le(val_len as u64, 4, &mut field);
            proof {
                lemma_le_bytes_len(val_len as nat, 4);
                assert(field@ =~= le_bytes(val_len as nat, 4));
            }
            respons.write_header(VALUE_LENGTH_OFFSET, field.as_slice());
        } else {
            // The RPC failed. Update the response header with the status.
            set_status(respons, status);
        }
    }
}

/// Writes `status` into the status byte of the response's current header.
fn set_status(respons: &mut Packet, status: RpcStatus)
    requires
        old(respons).wf(),
        old(respons)@.header_len() > STATUS_OFFSET,
    ensures
        final(respons).wf(),
        final(respons)@ == old(respons)@.overwritten(
            STATUS_OFFSET as int,
            seq![status.spec_to_byte()],
        ),
{
    let field: Vec<u8> = vec![status.to_byte()];
    proof {
        assert(field@ =~= seq![status.spec_to_byte()]);
    }
    respons.write_header(STATUS_OFFSET, field.as_slice());
}

/// What the Invoke handler does once it has read a request.
#[derive(Debug)]
pub enum InvokePlan {
    /// Answer with this status; no extension runs.
    Respond(RpcStatus),
    /// Hand this tenant and name to the extension manager, then answer that
    /// all went well.
    Run(UserId, String),
}

impl<E: Extension> Master<E> {
    /// Decides how an Invoke request is handled: checks the announced lengths
    /// against the payload, decodes the name, and resolves the tenant.
    pub fn plan_invoke(&self, req_hdr: &InvokeRequest, request: &Packet) -> (plan: InvokePlan)
        requires
            self.wf(),
            request.wf(),
            invoke_decodable(*req_hdr, request@.payload_bytes()),
        ensures
            match plan {
                InvokePlan::Respond(status) => {
                    &&& status != RpcStatus::StatusOk
                    &&& status == spec_invoke_status(
                        self.tenants(),
                        *req_hdr,
                        request@.payload_bytes(),
                    )
                },
                InvokePlan::Run(tenant, name) => {
                    &&& RpcStatus::StatusOk == spec_invoke_status(
                        self.tenants(),
                        *req_hdr,
                        request@.payload_bytes(),
                    )
                    &&& Some((tenant, name@)) == spec_invoke_target(
                        self.tenants(),
                        *req_hdr,
                        request@.payload_bytes(),
                    )
                },
            },
    {
        // Read fields of the request header.
        let tenant_id: UserId = req_hdr.common_header.tenant;
        let name_length: u32 = req_hdr.name_length;
        let args_length: u32 = req_hdr.args_length;

        // If the payload size is less than the sum of the name and args
        // length, return an error.
        let payload = request.get_payload();
        if (payload.len() as u64) < name_length as u64 + args_length as u64 {
            return InvokePlan::Respond(RpcStatus::StatusMalformedRequest);
        }

        // Read the extension's name from the request payload.
        let (raw_name, _) = payload.split_at(name_length as usize);
        let ext_name: String = string_from_utf8(slice_to_vec(raw_name)).unwrap();

        // Check if the request was issued by a valid tenant.
        if !self.users.contains_key(&tenant_id) {
            return InvokePlan::Respond(RpcStatus::StatusTenantDoesNotExist);
        }
        InvokePlan::Run(tenant_id, ext_name)
    }

    /// Handles an Invoke request: runs the named extension of the named
    /// tenant with a handle that grants no data access, and reports success
    /// once the extension returns. The argument bytes of the request are not
    /// passed on, and nothing the extension does changes the status.
    ///
    /// `req_hdr` is the request's header, `request` the request with its
    /// cursor on that header, and `respons` the response with its cursor on
    /// an Invoke response header.
    pub fn invoke(&self, req_hdr: &InvokeRequest, request: &Packet, respons: &mut Packet)
        requires
            self.wf(),
            request.wf(),
            old(respons).wf(),
            old(respons)@.header_len() == INVOKE_RESPONSE_LEN,
            invoke_decodable(*req_hdr, request@.payload_bytes()),
        ensures
            final(respons).wf(),
            final(respons)@ == status_reply(
                old(respons)@,
                spec_invoke_status(self.tenants(), *req_hdr, request@.payload_bytes()),
            ),
    {
        match self.plan_invoke(req_hdr, request) {
            InvokePlan::Respond(status) => {
                set_status(respons, status);
            },
            InvokePlan::Run(tenant_id, ext_name) => {
                // Run the extension with a null db interface.
                let db = NullDB::new();
                self.extensions.call(&db, tenant_id, ext_name.as_str());

                // Populate response header and return.
                set_status(respons, RpcStatus::StatusOk);
            },
        }
    }

    /// Tells whether `dispatch` may be called on this request and response.
    pub fn accepts(&self, request: &Packet, respons: &Packet) -> (ready: bool)
        requires
            request.wf(),
            respons.wf(),
        ensures
            ready == dispatchable(request@, respons@),
    {
        if request.get_header().len() != PACKET_UDP_LEN as usize || respons.get_header().len()
            != PACKET_UDP_LEN as usize {
            return false;
        }
        let rpc = request.get_payload();
        match parse_rpc_opcode(request) {
            OpCode::SandstormGetRpc => respons.room() >= GET_RESPONSE_LEN,
            OpCode::SandstormInvokeRpc => {
                if respons.room() < INVOKE_RESPONSE_LEN {
                    return false;
                }
                match InvokeRequest::parse(rpc) {
                    None => true,
                    Some(header) => {
                        let (_, payload) = rpc.split_at(INVOKE_REQUEST_LEN);
                        proof {
                            assert(payload@ =~= request@.payload_bytes().skip(
                                INVOKE_REQUEST_LEN as int,
                            ));
                        }
                        if (payload.len() as u64) < header.name_length as u64
                            + header.args_length as u64 {
                            true
                        } else {
                            let (raw_name, _) = payload.split_at(header.name_length as usize);
                            string_from_utf8(slice_to_vec(raw_name)).is_some()
                        }
                    },
                }
            },
            OpCode::InvalidOperation => true,
        }
    }

    /// Processes one request and builds its response.
    ///
    /// `request` is a request parsed up to and including its transport
    /// header. `respons` is a pre-allocated packet with headers up to the
    /// transport header; the response is written into it. Both come back with
    /// their cursor on the transport header again: the request as it came,
    /// the response as [`spec_dispatch`] describes.
    pub fn dispatch(&self, request: Packet, respons: Packet) -> (out: (Packet, Packet))
        requires
            self.wf(),
            request.wf(),
            respons.wf(),
            dispatchable(request@, respons@),
        ensures
            out.0.wf(),
            out.1.wf(),
            out.0@ == request@,
            out.1@ == spec_dispatch(self.tenants(), request@.payload_bytes(), respons@),
    {
        let ghost rpc = request@.payload_bytes();
        let ghost before = respons@;
        // Look at the opcode on the request, and figure out what to do with it.
        match parse_rpc_opcode(&request) {
            OpCode::SandstormGetRpc => {
                // Create a response header for the request.
                let response_header = GetResponse::new();
                proof {
                    lemma_get_response_round_trip(response_header, Seq::empty());
                }
                let mut respons: Packet = respons.push_header(
                    response_header.encode().as_slice(),
                ).unwrap();

                let ghost pushed = respons@;
                let req_hdr = match GetRequest::parse(request.get_payload()) {
                    Some(req_hdr) => req_hdr,
                    None => {
                        // The request cannot hold a Get request header.
                        set_status(&mut respons, RpcStatus::StatusMalformedRequest);
                        let respons: Packet = respons.deparse_header(PACKET_UDP_LEN as usize);
                        proof {
                            assert(pushed.appended(Seq::<u8>::empty()).bytes =~= pushed.bytes);
                            lemma_get_answer(
                                before,
                                RpcStatus::StatusMalformedRequest,
                                Seq::empty(),
                            );
                        }
                        return (request, respons);
                    },
                };
                let request: Packet = request.parse_header(GET_REQUEST_LEN);
                proof {
                    assert(request@.payload_bytes() =~= rpc.skip(GET_REQUEST_LEN as int));
                }

                // Handle the RPC request.
                self.get(&req_hdr, &request, &mut respons);

                // Deparse request and response headers so that packets can
                // be handed back to the caller.
                let request: Packet = request.deparse_header(PACKET_UDP_LEN as usize);
                let respons: Packet = respons.deparse_header(PACKET_UDP_LEN as usize);
                proof {
                    let (status, value) = spec_dispatch_get(
                        self.tenants(),
                        rpc,
                        before.room() - GET_RESPONSE_LEN,
                    );
                    lemma_get_answer(before, status, value);
                }

                return (request, respons);
            },
            OpCode::SandstormInvokeRpc => {
                // Create a response header for the request.
                let response_header = InvokeResponse::new();
                proof {
                    lemma_invoke_response_round_trip(response_header, Seq::empty());
                }
                let mut respons: Packet = respons.push_header(
                    response_header.encode().as_slice(),
                ).unwrap();

                proof {
                    lemma_invoke_answer(before, spec_dispatch_invoke(self.tenants(), rpc));
                }
                let req_hdr = match InvokeRequest::parse(request.get_payload()) {
                    Some(req_hdr) => req_hdr,
                    None => {
                        // The request cannot hold an Invoke request header.
                        set_status(&mut respons, RpcStatus::StatusMalformedRequest);
                        let respons: Packet = respons.deparse_header(PACKET_UDP_LEN as usize);
                        return (request, respons);
                    },
                };
                let request: Packet = request.parse_header(INVOKE_REQUEST_LEN);
                proof {
                    assert(request@.payload_bytes() =~= rpc.skip(INVOKE_REQUEST_LEN as int));
                }

                // Handle the RPC request.
                self.invoke(&req_hdr, &request, &mut respons);

                // Deparse request and response headers so that packets can
                // be handed back to the caller.
                let request: Packet = request.deparse_header(PACKET_UDP_LEN as usize);
                let respons: Packet = respons.deparse_header(PACKET_UDP_LEN as usize);

                return (request, respons);
            },
            OpCode::InvalidOperation => {
                // No response is built: both packets go back as they came.
                return (request, respons);
            },
        }
    }
}

} // verus!
