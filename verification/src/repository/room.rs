use crate::domain::address::SocketAddress;
use crate::domain::entity::{
    clone_devices, devices_view, rooms_view, DeviceInfo, DeviceInfoView, DeviceName, RoomInfo,
    RoomInfoView, RoomName,
};
use vstd::prelude::*;

verus! {

/// Why nothing was added: it would break a rule of the registry, or the registry failed.
#[derive(Clone, Copy, Debug, PartialEq, Eq, Structural)]
pub enum InsertError {
    Conflict,
    Unknown,
}

/// Why nothing was fetched: it is not there, or the registry failed.
#[derive(Clone, Copy, Debug, PartialEq, Eq, Structural)]
pub enum FetchError {
    Unknown,
    NotFound,
}

/// Why nothing was deleted: it is not there, or the registry failed.
#[derive(Clone, Copy, Debug, PartialEq, Eq, Structural)]
pub enum DeleteError {
    NotFound,
    Unknown,
}

/// Some room carries the name.
pub open spec fn has_room(rooms: Seq<RoomInfoView>, name: Seq<char>) -> bool {
    exists|i: int| 0 <= i < rooms.len() && (#[trigger] rooms[i]).name == name
}

/// The place of a room that carries the name, where `has_room` holds.
pub open spec fn room_index(rooms: Seq<RoomInfoView>, name: Seq<char>) -> int {
    choose|i: int| 0 <= i < rooms.len() && (#[trigger] rooms[i]).name == name
}

/// Some device of the list carries the name.
pub open spec fn has_device(devices: Seq<DeviceInfoView>, name: Seq<char>) -> bool {
    exists|j: int| 0 <= j < devices.len() && (#[trigger] devices[j]).name == name
}

/// The place of a device that carries the name, where `has_device` holds.
pub open spec fn device_index(devices: Seq<DeviceInfoView>, name: Seq<char>) -> int {
    choose|j: int| 0 <= j < devices.len() && (#[trigger] devices[j]).name == name
}

/// Some device of the list sits at the address.
pub open spec fn devices_use_address(devices: Seq<DeviceInfoView>, address: SocketAddress) -> bool {
    exists|j: int| 0 <= j < devices.len() && (#[trigger] devices[j]).address == address
}

/// Some device of some room sits at the address.
pub open spec fn address_in_use(rooms: Seq<RoomInfoView>, address: SocketAddress) -> bool {
    exists|i: int|
        0 <= i < rooms.len() && devices_use_address((#[trigger] rooms[i]).devices, address)
}

/// No two rooms share a name.
pub open spec fn room_names_unique(rooms: Seq<RoomInfoView>) -> bool {
    forall|i: int, j: int|
        0 <= i < j < rooms.len() ==> (#[trigger] rooms[i]).name != (#[trigger] rooms[j]).name
}

/// No two devices of the list share a name.
pub open spec fn device_names_unique(devices: Seq<DeviceInfoView>) -> bool {
    forall|i: int, j: int|
        0 <= i < j < devices.len() ==> (#[trigger] devices[i]).name != (
        #[trigger] devices[j]).name
}

/// No two devices share an address, whichever rooms they are in.
pub open spec fn addresses_unique(rooms: Seq<RoomInfoView>) -> bool {
    forall|i1: int, j1: int, i2: int, j2: int|
        0 <= i1 < rooms.len() && 0 <= j1 < rooms[i1].devices.len() && 0 <= i2 < rooms.len() && 0
            <= j2 < rooms[i2].devices.len() && (i1 != i2 || j1 != j2) ==> (
        #[trigger] rooms[i1].devices[j1]).address != (#[trigger] rooms[i2].devices[j2]).address
}

/// What holds of every registry: room names are unique, device names are unique within
/// each room, and device addresses are unique over all rooms.
pub open spec fn registry_wf(rooms: Seq<RoomInfoView>) -> bool {
    &&& room_names_unique(rooms)
    &&& forall|i: int| 0 <= i < rooms.len() ==> device_names_unique((#[trigger] rooms[i]).devices)
    &&& addresses_unique(rooms)
}

/// A room without devices.
pub open spec fn empty_room(name: Seq<char>) -> RoomInfoView {
    RoomInfoView { name, devices: Seq::empty() }
}

/// The rooms after the device joined room `i`, at the end of its list.
pub open spec fn with_device(rooms: Seq<RoomInfoView>, i: int, device: DeviceInfoView) -> Seq<
    RoomInfoView,
> {
    rooms.update(i, RoomInfoView { name: rooms[i].name, devices: rooms[i].devices.push(device) })
}

/// The rooms after device `j` left room `i`.
pub open spec fn without_device(rooms: Seq<RoomInfoView>, i: int, j: int) -> Seq<RoomInfoView> {
    rooms.update(i, RoomInfoView { name: rooms[i].name, devices: rooms[i].devices.remove(j) })
}

/// The device may join the room: the room exists, no device anywhere sits at its address,
/// and no device of the room carries its name.
pub open spec fn can_add_device(
    rooms: Seq<RoomInfoView>,
    room_name: Seq<char>,
    device: DeviceInfoView,
) -> bool {
    &&& has_room(rooms, room_name)
    &&& !address_in_use(rooms, device.address)
    &&& !has_device(rooms[room_index(rooms, room_name)].devices, device.name)
}

/// The room of that name holds a device of that name.
pub open spec fn has_device_in_room(
    rooms: Seq<RoomInfoView>,
    room_name: Seq<char>,
    device_name: Seq<char>,
) -> bool {
    has_room(rooms, room_name) && has_device(
        rooms[room_index(rooms, room_name)].devices,
        device_name,
    )
}

/// The device of that name in the room of that name, where `has_device_in_room` holds.
pub open spec fn device_in_room(
    rooms: Seq<RoomInfoView>,
    room_name: Seq<char>,
    device_name: Seq<char>,
) -> DeviceInfoView {
    let devices = rooms[room_index(rooms, room_name)].devices;
    devices[device_index(devices, device_name)]
}

/// Where room names are unique, a room that carries the name is the room of that name.
pub proof fn lemma_room_index(rooms: Seq<RoomInfoView>, name: Seq<char>, i: int)
    requires
        room_names_unique(rooms),
        0 <= i < rooms.len(),
        rooms[i].name == name,
    ensures
        has_room(rooms, name),
        room_index(rooms, name) == i,
{
    let k = room_index(rooms, name);
    if k < i {
        assert(rooms[k].name != rooms[i].name);
    } else if i < k {
        assert(rooms[i].name != rooms[k].name);
    }
}

/// Where device names are unique, a device that carries the name is the device of that
/// name.
pub proof fn lemma_device_index(devices: Seq<DeviceInfoView>, name: Seq<char>, j: int)
    requires
        device_names_unique(devices),
        0 <= j < devices.len(),
        devices[j].name == name,
    ensures
        has_device(devices, name),
        device_index(devices, name) == j,
{
    let k = device_index(devices, name);
    if k < j {
        assert(devices[k].name != devices[j].name);
    } else if j < k {
        assert(devices[j].name != devices[k].name);
    }
}

/// The device of a name in a room carries that name.
pub proof fn lemma_device_in_room_name(
    rooms: Seq<RoomInfoView>,
    room_name: Seq<char>,
    device_name: Seq<char>,
)
    requires
        has_device_in_room(rooms, room_name, device_name),
    ensures
        device_in_room(rooms, room_name, device_name).name == device_name,
{
}

/// A registry stays well formed when a room without devices and with a new name joins.
pub proof fn lemma_add_room_keeps_wf(rooms: Seq<RoomInfoView>, name: Seq<char>)
    requires
        registry_wf(rooms),
        !has_room(rooms, name),
    ensures
        registry_wf(rooms.push(empty_room(name))),
{
    let after = rooms.push(empty_room(name));
    assert forall|i: int, j: int| 0 <= i < j < after.len() implies (#[trigger] after[i]).name != (
    #[trigger] after[j]).name by {
        if j < rooms.len() {
            assert(rooms[i].name != rooms[j].name);
        } else {
            assert(rooms[i].name != name);
        }
    }
    assert forall|i: int| 0 <= i < after.len() implies device_names_unique(
        (#[trigger] after[i]).devices,
    ) by {
        if i < rooms.len() {
            assert(device_names_unique(rooms[i].devices));
        }
    }
    assert forall|i1: int, j1: int, i2: int, j2: int|
        0 <= i1 < after.len() && 0 <= j1 < after[i1].devices.len() && 0 <= i2 < after.len() && 0
            <= j2 < after[i2].devices.len() && (i1 != i2 || j1 != j2) implies (
    #[trigger] after[i1].devices[j1]).address != (#[trigger] after[i2].devices[j2]).address by {
        assert(rooms[i1].devices[j1].address != rooms[i2].devices[j2].address);
    }
}

/// A registry stays well formed when a room leaves.
pub proof fn lemma_delete_room_keeps_wf(rooms: Seq<RoomInfoView>, i: int)
    requires
        registry_wf(rooms),
        0 <= i < rooms.len(),
    ensures
        registry_wf(rooms.remove(i)),
{
    let after = rooms.remove(i);
    assert forall|a: int, b: int| 0 <= a < b < after.len() implies (#[trigger] after[a]).name != (
    #[trigger] after[b]).name by {
        let a0 = if a < i { a } else { a + 1 };
        let b0 = if b < i { b } else { b + 1 };
        assert(rooms[a0].name != rooms[b0].name);
    }
    assert forall|a: int| 0 <= a < after.len() implies device_names_unique(
        (#[trigger] after[a]).devices,
    ) by {
        let a0 = if a < i { a } else { a + 1 };
        assert(device_names_unique(rooms[a0].devices));
    }
    assert forall|i1: int, j1: int, i2: int, j2: int|
        0 <= i1 < after.len() && 0 <= j1 < after[i1].devices.len() && 0 <= i2 < after.len() && 0
            <= j2 < after[i2].devices.len() && (i1 != i2 || j1 != j2) implies (
    #[trigger] after[i1].devices[j1]).address != (#[trigger] after[i2].devices[j2]).address by {
        let a0 = if i1 < i { i1 } else { i1 + 1 };
        let b0 = if i2 < i { i2 } else { i2 + 1 };
        assert(rooms[a0].devices[j1].address != rooms[b0].devices[j2].address);
    }
}

/// A registry stays well formed when a device joins a room in which its name is new, at
/// an address that no device of any room has.
pub proof fn lemma_add_device_keeps_wf(rooms: Seq<RoomInfoView>, i: int, device: DeviceInfoView)
    requires
        registry_wf(rooms),
        0 <= i < rooms.len(),
        !address_in_use(rooms, device.address),
        !has_device(rooms[i].devices, device.name),
    ensures
        registry_wf(with_device(rooms, i, device)),
{
    let after = with_device(rooms, i, device);
    let n = rooms[i].devices.len() as int;
    assert forall|a: int, b: int| 0 <= a < b < after.len() implies (#[trigger] after[a]).name != (
    #[trigger] after[b]).name by {
        assert(rooms[a].name != rooms[b].name);
    }
    assert forall|a: int| 0 <= a < after.len() implies device_names_unique(
        (#[trigger] after[a]).devices,
    ) by {
        assert(device_names_unique(rooms[a].devices));
        if a == i {
            let devices = after[a].devices;
            assert forall|x: int, y: int| 0 <= x < y < devices.len() implies (
            #[trigger] devices[x]).name != (#[trigger] devices[y]).name by {
                if y < n {
                    assert(rooms[i].devices[x].name != rooms[i].devices[y].name);
                } else {
                    assert(rooms[i].devices[x].name != device.name);
                }
            }
        }
    }
    assert forall|i1: int, j1: int, i2: int, j2: int|
        0 <= i1 < after.len() && 0 <= j1 < after[i1].devices.len() && 0 <= i2 < after.len() && 0
            <= j2 < after[i2].devices.len() && (i1 != i2 || j1 != j2) implies (
    #[trigger] after[i1].devices[j1]).address != (#[trigger] after[i2].devices[j2]).address by {
        let first_new = i1 == i && j1 == n;
        let second_new = i2 == i && j2 == n;
        if !first_new {
            assert(after[i1].devices[j1] == rooms[i1].devices[j1]);
            assert(devices_use_address(rooms[i1].devices, rooms[i1].devices[j1].address));
        }
        if !second_new {
            assert(after[i2].devices[j2] == rooms[i2].devices[j2]);
            assert(devices_use_address(rooms[i2].devices, rooms[i2].devices[j2].address));
        }
        if !first_new && !second_new {
            assert(rooms[i1].devices[j1].address != rooms[i2].devices[j2].address);
        }
    }
}

/// A registry stays well formed when a device leaves its room.
pub proof fn lemma_delete_device_keeps_wf(rooms: Seq<RoomInfoView>, i: int, j: int)
    requires
        registry_wf(rooms),
        0 <= i < rooms.len(),
        0 <= j < rooms[i].devices.len(),
    ensures
        registry_wf(without_device(rooms, i, j)),
{
    let after = without_device(rooms, i, j);
    assert forall|a: int, b: int| 0 <= a < b < after.len() implies (#[trigger] after[a]).name != (
    #[trigger] after[b]).name by {
        assert(rooms[a].name != rooms[b].name);
    }
    assert forall|a: int| 0 <= a < after.len() implies device_names_unique(
        (#[trigger] after[a]).devices,
    ) by {
        assert(device_names_unique(rooms[a].devices));
        if a == i {
            let devices = after[a].devices;
            assert forall|x: int, y: int| 0 <= x < y < devices.len() implies (
            #[trigger] devices[x]).name != (#[trigger] devices[y]).name by {
                let x0 = if x < j { x } else { x + 1 };
                let y0 = if y < j { y } else { y + 1 };
                assert(rooms[i].devices[x0].name != rooms[i].devices[y0].name);
            }
        }
    }
    assert forall|i1: int, j1: int, i2: int, j2: int|
        0 <= i1 < after.len() && 0 <= j1 < after[i1].devices.len() && 0 <= i2 < after.len() && 0
            <= j2 < after[i2].devices.len() && (i1 != i2 || j1 != j2) implies (
    #[trigger] after[i1].devices[j1]).address != (#[trigger] after[i2].devices[j2]).address by {
        let a0 = if i1 == i && j1 >= j { j1 + 1 } else { j1 };
        let b0 = if i2 == i && j2 >= j { j2 + 1 } else { j2 };
        assert(after[i1].devices[j1] == rooms[i1].devices[a0]);
        assert(after[i2].devices[j2] == rooms[i2].devices[b0]);
        assert(rooms[i1].devices[a0].address != rooms[i2].devices[b0].address);
    }
}

/// A room that was added is found under its name, and is found without devices.
pub proof fn lemma_added_room_is_found(rooms: Seq<RoomInfoView>, name: Seq<char>)
    requires
        registry_wf(rooms),
        !has_room(rooms, name),
    ensures
        has_room(rooms.push(empty_room(name)), name),
        rooms.push(empty_room(name))[room_index(rooms.push(empty_room(name)), name)] == empty_room(
            name,
        ),
{
    let after = rooms.push(empty_room(name));
    lemma_add_room_keeps_wf(rooms, name);
    assert(after[rooms.len() as int].name == name);
    lemma_room_index(after, name, rooms.len() as int);
}

/// A device that was added is found under its name in its room, and is found as it was
/// given.
pub proof fn lemma_added_device_is_found(
    rooms: Seq<RoomInfoView>,
    room_name: Seq<char>,
    device: DeviceInfoView,
)
    requires
        registry_wf(rooms),
        can_add_device(rooms, room_name, device),
    ensures
        has_device_in_room(
            with_device(rooms, room_index(rooms, room_name), device),
            room_name,
            device.name,
        ),
        device_in_room(
            with_device(rooms, room_index(rooms, room_name), device),
            room_name,
            device.name,
        ) == device,
{
    let i = room_index(rooms, room_name);
    let after = with_device(rooms, i, device);
    lemma_add_device_keeps_wf(rooms, i, device);
    assert(after[i].name == room_name);
    lemma_room_index(after, room_name, i);
    let devices = after[i].devices;
    let j = rooms[i].devices.len() as int;
    assert(devices[j] == device);
    assert(device_names_unique(devices));
    lemma_device_index(devices, device.name, j);
}

/// A room that was deleted is found no more, and none of its devices with it.
pub proof fn lemma_deleted_room_is_gone(
    rooms: Seq<RoomInfoView>,
    name: Seq<char>,
    device_name: Seq<char>,
)
    requires
        registry_wf(rooms),
        has_room(rooms, name),
    ensures
        !has_room(rooms.remove(room_index(rooms, name)), name),
        !has_device_in_room(rooms.remove(room_index(rooms, name)), name, device_name),
        rooms.len() == 1 ==> rooms.remove(room_index(rooms, name)) == Seq::<RoomInfoView>::empty(),
{
    let i = room_index(rooms, name);
    let after = rooms.remove(i);
    assert forall|k: int| 0 <= k < after.len() implies (#[trigger] after[k]).name != name by {
        let k0 = if k < i {
            k
        } else {
            k + 1
        };
        if k0 < i {
            assert(rooms[k0].name != rooms[i].name);
        } else {
            assert(rooms[i].name != rooms[k0].name);
        }
    }
    if rooms.len() == 1 {
        assert(after =~= Seq::<RoomInfoView>::empty());
    }
}

/// A device that was deleted is found no more in its room.
pub proof fn lemma_deleted_device_is_gone(
    rooms: Seq<RoomInfoView>,
    room_name: Seq<char>,
    device_name: Seq<char>,
)
    requires
        registry_wf(rooms),
        has_device_in_room(rooms, room_name, device_name),
    ensures
        !has_device_in_room(
            without_device(
                rooms,
                room_index(rooms, room_name),
                device_index(rooms[room_index(rooms, room_name)].devices, device_name),
            ),
            room_name,
            device_name,
        ),
{
    let i = room_index(rooms, room_name);
    let before = rooms[i].devices;
    let j = device_index(before, device_name);
    let after = without_device(rooms, i, j);
    lemma_delete_device_keeps_wf(rooms, i, j);
    assert(after[i].name == room_name);
    lemma_room_index(after, room_name, i);
    let devices = after[i].devices;
    assert(device_names_unique(before));
    assert forall|k: int| 0 <= k < devices.len() implies (#[trigger] devices[k]).name
        != device_name by {
        let k0 = if k < j {
            k
        } else {
            k + 1
        };
        assert(devices[k] == before[k0]);
        if k0 < j {
            assert(before[k0].name != before[j].name);
        } else {
            assert(before[j].name != before[k0].name);
        }
    }
}

/// The rooms after a call that adds a device: the device has joined its room where it
/// may, and nothing has changed where it may not.
pub open spec fn after_add_device(
    rooms: Seq<RoomInfoView>,
    room_name: Seq<char>,
    device: DeviceInfoView,
) -> Seq<RoomInfoView> {
    if can_add_device(rooms, room_name, device) {
        with_device(rooms, room_index(rooms, room_name), device)
    } else {
        rooms
    }
}

/// The rooms after a run of calls that add devices, each call a room name and a device.
pub open spec fn after_add_devices(
    rooms: Seq<RoomInfoView>,
    calls: Seq<(Seq<char>, DeviceInfoView)>,
) -> Seq<RoomInfoView>
    decreases calls.len(),
{
    if calls.len() == 0 {
        rooms
    } else {
        after_add_device(
            after_add_devices(rooms, calls.drop_last()),
            calls.last().0,
            calls.last().1,
        )
    }
}

/// Whatever devices are added, in whatever order and to whatever rooms, no two devices
/// of the registry come to share an address and no two devices of one room a name.
pub proof fn lemma_add_devices_keep_wf(
    rooms: Seq<RoomInfoView>,
    calls: Seq<(Seq<char>, DeviceInfoView)>,
)
    requires
        registry_wf(rooms),
    ensures
        registry_wf(after_add_devices(rooms, calls)),
    decreases calls.len(),
{
    if calls.len() > 0 {
        lemma_add_devices_keep_wf(rooms, calls.drop_last());
        let before = after_add_devices(rooms, calls.drop_last());
        let room_name = calls.last().0;
        let device = calls.last().1;
        if can_add_device(before, room_name, device) {
            lemma_add_device_keeps_wf(before, room_index(before, room_name), device);
        }
    }
}

/// In a well-formed registry, two devices at one address are one device, and two devices
/// of one room under one name are one device.
pub proof fn lemma_devices_are_told_apart(
    rooms: Seq<RoomInfoView>,
    i1: int,
    j1: int,
    i2: int,
    j2: int,
)
    requires
        registry_wf(rooms),
        0 <= i1 < rooms.len(),
        0 <= j1 < rooms[i1].devices.len(),
        0 <= i2 < rooms.len(),
        0 <= j2 < rooms[i2].devices.len(),
    ensures
        rooms[i1].devices[j1].address == rooms[i2].devices[j2].address ==> i1 == i2 && j1 == j2,
        i1 == i2 && rooms[i1].devices[j1].name == rooms[i2].devices[j2].name ==> j1 == j2,
{
    if i1 == i2 && j1 != j2 {
        let devices = rooms[i1].devices;
        assert(device_names_unique(devices));
        if j1 < j2 {
            assert(devices[j1].name != devices[j2].name);
        } else {
            assert(devices[j2].name != devices[j1].name);
        }
    }
}

/// The registry: rooms in the order in which they were added, each with its devices in the
/// order in which they were added.
///
/// One value is one state of the registry. Callers that share a registry keep it behind
/// one exclusive lock and hold the lock for the length of one call, so that the calls
/// take effect one after another; every state that such callers can reach is then a state
/// that the operations below lead to.
pub struct InMemoryRepository {
    returns_error: bool,
    rooms: Vec<RoomInfo>,
}

impl View for InMemoryRepository {
    type V = Seq<RoomInfoView>;

    closed spec fn view(&self) -> Seq<RoomInfoView> {
        rooms_view(self.rooms@)
    }
}

impl InMemoryRepository {
    #[verifier::type_invariant]
    spec fn well_formed(&self) -> bool {
        registry_wf(rooms_view(self.rooms@))
    }

    /// The registry refuses every operation with `Unknown`.
    pub closed spec fn failing(&self) -> bool {
        self.returns_error
    }

    /// A registry without rooms.
    pub fn new() -> (r: InMemoryRepository)
        ensures
            r@ == Seq::<RoomInfoView>::empty(),
            !r.failing(),
            registry_wf(r@),
    {
        let r = InMemoryRepository { returns_error: false, rooms: Vec::new() };
        assert(rooms_view(r.rooms@) =~= Seq::<RoomInfoView>::empty());
        r
    }

    /// The same rooms in a registry that refuses every operation.
    pub fn with_error(self) -> (r: InMemoryRepository)
        ensures
            r@ == self@,
            r.failing(),
    {
        proof {
            use_type_invariant(&self);
        }
        InMemoryRepository { returns_error: true, rooms: self.rooms }
    }

    /// Shows that the registry is well formed, as every registry is. Does nothing when run.
    pub fn well_formedness(&self)
        ensures
            registry_wf(self@),
    {
        proof {
            use_type_invariant(self);
        }
    }

    /// Moves the rooms out and leaves a registry without rooms.
    fn take_rooms(&mut self) -> (rooms: Vec<RoomInfo>)
        ensures
            rooms_view(rooms@) == old(self)@,
            registry_wf(old(self)@),
            final(self).failing() == old(self).failing(),
    {
        proof {
            use_type_invariant(&*self);
        }
        let mut rooms: Vec<RoomInfo> = Vec::new();
        assert(rooms_view(rooms@) =~= Seq::<RoomInfoView>::empty());
        core::mem::swap(&mut self.rooms, &mut rooms);
        rooms
    }

    /// Moves the rooms in, in place of those that the registry holds.
    fn put_rooms(&mut self, rooms: Vec<RoomInfo>)
        requires
            registry_wf(rooms_view(rooms@)),
        ensures
            final(self)@ == rooms_view(rooms@),
            final(self).failing() == old(self).failing(),
    {
        let mut rooms = rooms;
        core::mem::swap(&mut self.rooms, &mut rooms);
    }

    fn find_room(&self, name: &RoomName) -> (r: Option<usize>)
        ensures
            registry_wf(self@),
            self@.len() == self.rooms@.len(),
            match r {
                Some(i) => i < self@.len() && self@[i as int].name == name@ && has_room(
                    self@,
                    name@,
                ) && room_index(self@, name@) == i,
                None => !has_room(self@, name@),
            },
    {
        proof {
            use_type_invariant(self);
        }
        let mut i: usize = 0;
        while i < self.rooms.len()
            invariant
                i <= self.rooms.len(),
                self@ == rooms_view(self.rooms@),
                registry_wf(self@),
                forall|k: int| 0 <= k < i ==> (#[trigger] self@[k]).name != name@,
            decreases self.rooms.len() - i,
        {
            if self.rooms[i].name == *name {
                proof {
                    lemma_room_index(self@, name@, i as int);
                }
                return Some(i);
            }
            i = i + 1;
        }
        None
    }

    /// Adds a room without devices, unless a room of that name exists.
    pub fn add_room(&mut self, name: RoomName) -> (r: Result<RoomInfo, InsertError>)
        ensures
            final(self).failing() == old(self).failing(),
            registry_wf(final(self)@),
            match r {
                Ok(room) => !old(self).failing() && !has_room(old(self)@, name@) && room@
                    == empty_room(name@) && final(self)@ == old(self)@.push(empty_room(name@)),
                Err(InsertError::Conflict) => !old(self).failing() && has_room(old(self)@, name@)
                    && final(self)@ == old(self)@,
                Err(InsertError::Unknown) => old(self).failing() && final(self)@ == old(self)@,
            },
    {
        proof {
            use_type_invariant(&*self);
        }
        if self.returns_error {
            return Err(InsertError::Unknown);
        }
        if self.find_room(&name).is_some() {
            return Err(InsertError::Conflict);
        }
        let new_room = RoomInfo { name, devices: Vec::new() };
        let stored = new_room.clone();
        let mut rooms = self.take_rooms();
        proof {
            assert(new_room@.devices =~= Seq::<DeviceInfoView>::empty());
            lemma_add_room_keeps_wf(old(self)@, name@);
            assert(rooms_view(rooms@.push(stored)) =~= rooms_view(rooms@).push(stored@));
        }
        rooms.push(stored);
        self.put_rooms(rooms);
        Ok(new_room)
    }

    /// A copy of the room of that name.
    pub fn fetch_room(&self, name: RoomName) -> (r: Result<RoomInfo, FetchError>)
        ensures
            registry_wf(self@),
            match r {
                Ok(room) => !self.failing() && has_room(self@, name@) && room@
                    == self@[room_index(self@, name@)],
                Err(FetchError::NotFound) => !self.failing() && !has_room(self@, name@),
                Err(FetchError::Unknown) => self.failing(),
            },
    {
        proof {
            use_type_invariant(self);
        }
        if self.returns_error {
            return Err(FetchError::Unknown);
        }
        match self.find_room(&name) {
            Some(i) => Ok(self.rooms[i].clone()),
            None => Err(FetchError::NotFound),
        }
    }

    /// Copies of all rooms, in the order in which they were added.
    pub fn fetch_rooms(&self) -> (r: Result<Vec<RoomInfo>, FetchError>)
        ensures
            registry_wf(self@),
            match r {
                Ok(rooms) => !self.failing() && rooms_view(rooms@) == self@,
                Err(e) => self.failing() && e == FetchError::Unknown,
            },
    {
        proof {
            use_type_invariant(self);
        }
        if self.returns_error {
            return Err(FetchError::Unknown);
        }
        let mut out: Vec<RoomInfo> = Vec::new();
        let mut i: usize = 0;
        while i < self.rooms.len()
            invariant
                i <= self.rooms.len(),
                out@.len() == i,
                forall|k: int| 0 <= k < i ==> out@[k]@ == self.rooms@[k]@,
            decreases self.rooms.len() - i,
        {
            out.push(self.rooms[i].clone());
            i = i + 1;
        }
        assert(rooms_view(out@) =~= self@);
        Ok(out)
    }

    /// Removes the room of that name, and its devices with it.
    pub fn delete_room(&mut self, name: RoomName) -> (r: Result<(), DeleteError>)
        ensures
            final(self).failing() == old(self).failing(),
            registry_wf(final(self)@),
            match r {
                Ok(()) => !old(self).failing() && has_room(old(self)@, name@) && final(self)@
                    == old(self)@.remove(room_index(old(self)@, name@)),
                Err(DeleteError::NotFound) => !old(self).failing() && !has_room(old(self)@, name@)
                    && final(self)@ == old(self)@,
                Err(DeleteError::Unknown) => old(self).failing() && final(self)@ == old(self)@,
            },
    {
        proof {
            use_type_invariant(&*self);
        }
        if self.returns_error {
            return Err(DeleteError::Unknown);
        }
        let del_idx = match self.find_room(&name) {
            Some(i) => i,
            None => { return Err(DeleteError::NotFound); },
        };
        let mut rooms = self.take_rooms();
        proof {
            lemma_delete_room_keeps_wf(old(self)@, del_idx as int);
            assert(rooms_view(rooms@.remove(del_idx as int)) =~= rooms_view(rooms@).remove(
                del_idx as int,
            ));
        }
        rooms.remove(del_idx);
        self.put_rooms(rooms);
        Ok(())
    }

    fn address_taken(&self, address: SocketAddress) -> (b: bool)
        ensures
            b == address_in_use(self@, address),
    {
        let mut i: usize = 0;
        while i < self.rooms.len()
            invariant
                i <= self.rooms.len(),
                self@ == rooms_view(self.rooms@),
                forall|k: int|
                    0 <= k < i ==> !devices_use_address((#[trigger] self@[k]).devices, address),
            decreases self.rooms.len() - i,
        {
            let devices = &self.rooms[i].devices;
            let mut j: usize = 0;
            while j < devices.len()
                invariant
                    j <= devices.len(),
                    i < self.rooms.len(),
                    self@ == rooms_view(self.rooms@),
                    devices_view(devices@) == self@[i as int].devices,
                    forall|k: int|
                        0 <= k < j ==> (#[trigger] devices_view(devices@)[k]).address != address,
                decreases devices.len() - j,
            {
                if devices[j].address == address {
                    proof {
                        assert(devices_view(devices@)[j as int].address == address);
                        assert(devices_use_address(self@[i as int].devices, address));
                    }
                    return true;
                }
                j = j + 1;
            }
            i = i + 1;
        }
        false
    }

    /// Adds the device to the room of that name.
    ///
    /// The device is refused with `Conflict` where a device of any room sits at its
    /// address, where the room holds a device of its name, and also where no room of
    /// that name exists.
    pub fn add_device(&mut self, room_name: RoomName, device_info: DeviceInfo) -> (r: Result<
        DeviceInfo,
        InsertError,
    >)
        ensures
            final(self).failing() == old(self).failing(),
            registry_wf(final(self)@),
            match r {
                Ok(device) => {
                    &&& !old(self).failing()
                    &&& can_add_device(old(self)@, room_name@, device_info@)
                    &&& device@ == device_info@
                    &&& final(self)@ == with_device(
                        old(self)@,
                        room_index(old(self)@, room_name@),
                        device_info@,
                    )
                },
                Err(InsertError::Conflict) => {
                    &&& !old(self).failing()
                    &&& !can_add_device(old(self)@, room_name@, device_info@)
                    &&& final(self)@ == old(self)@
                },
                Err(InsertError::Unknown) => old(self).failing() && final(self)@ == old(self)@,
            },
            !old(self).failing() && !has_room(old(self)@, room_name@) ==> r == Err::<
                DeviceInfo,
                InsertError,
            >(InsertError::Conflict),
            !old(self).failing() ==> final(self)@ == after_add_device(
                old(self)@,
                room_name@,
                device_info@,
            ),
    {
        proof {
            use_type_invariant(&*self);
        }
        if self.returns_error {
            return Err(InsertError::Unknown);
        }
        if self.address_taken(device_info.address) {
            return Err(InsertError::Conflict);
        }
        let i = match self.find_room(&room_name) {
            Some(i) => i,
            None => { return Err(InsertError::Conflict); },
        };
        if find_device(&self.rooms[i].devices, &device_info.name).is_some() {
            return Err(InsertError::Conflict);
        }
        let stored = device_info.clone();
        let mut rooms = self.take_rooms();
        let mut room = rooms.remove(i);
        proof {
            lemma_add_device_keeps_wf(old(self)@, i as int, device_info@);
            assert(devices_view(room.devices@.push(stored)) =~= devices_view(room.devices@).push(
                stored@,
            ));
        }
        room.devices.push(stored);
        proof {
            assert(rooms_view(rooms@.insert(i as int, room)) =~= with_device(
                old(self)@,
                i as int,
                device_info@,
            ));
        }
        rooms.insert(i, room);
        self.put_rooms(rooms);
        Ok(device_info)
    }

    /// A copy of the device of that name in the room of that name.
    pub fn fetch_device(&self, room_name: RoomName, device_name: DeviceName) -> (r: Result<
        DeviceInfo,
        FetchError,
    >)
        ensures
            registry_wf(self@),
            match r {
                Ok(device) => {
                    &&& !self.failing()
                    &&& has_device_in_room(self@, room_name@, device_name@)
                    &&& device@ == device_in_room(self@, room_name@, device_name@)
                },
                Err(FetchError::NotFound) => {
                    &&& !self.failing()
                    &&& !has_device_in_room(self@, room_name@, device_name@)
                },
                Err(FetchError::Unknown) => self.failing(),
            },
    {
        proof {
            use_type_invariant(self);
        }
        if self.returns_error {
            return Err(FetchError::Unknown);
        }
        match self.find_room(&room_name) {
            Some(i) => match find_device(&self.rooms[i].devices, &device_name) {
                Some(j) => Ok(self.rooms[i].devices[j].clone()),
                None => Err(FetchError::NotFound),
            },
            None => Err(FetchError::NotFound),
        }
    }

    /// Copies of the devices of the room of that name, in the order in which they were
    /// added.
    pub fn fetch_devices(&self, room_name: RoomName) -> (r: Result<Vec<DeviceInfo>, FetchError>)
        ensures
            registry_wf(self@),
            match r {
                Ok(devices) => !self.failing() && has_room(self@, room_name@) && devices_view(
                    devices@,
                ) == self@[room_index(self@, room_name@)].devices,
                Err(FetchError::NotFound) => !self.failing() && !has_room(self@, room_name@),
                Err(FetchError::Unknown) => self.failing(),
            },
    {
        proof {
            use_type_invariant(self);
        }
        if self.returns_error {
            return Err(FetchError::Unknown);
        }
        match self.find_room(&room_name) {
            Some(i) => Ok(clone_devices(&self.rooms[i].devices)),
            None => Err(FetchError::NotFound),
        }
    }

    /// Removes the device of that name from the room of that name.
    pub fn delete_device(&mut self, room_name: RoomName, device_name: DeviceName) -> (r: Result<
        (),
        DeleteError,
    >)
        ensures
            final(self).failing() == old(self).failing(),
            registry_wf(final(self)@),
            match r {
                Ok(()) => {
                    &&& !old(self).failing()
                    &&& has_device_in_room(old(self)@, room_name@, device_name@)
                    &&& final(self)@ == without_device(
                        old(self)@,
                        room_index(old(self)@, room_name@),
                        device_index(
                            old(self)@[room_index(old(self)@, room_name@)].devices,
                            device_name@,
                        ),
                    )
                },
                Err(DeleteError::NotFound) => {
                    &&& !old(self).failing()
                    &&& !has_device_in_room(old(self)@, room_name@, device_name@)
                    &&& final(self)@ == old(self)@
                },
                Err(DeleteError::Unknown) => old(self).failing() && final(self)@ == old(self)@,
            },
    {
        proof {
            use_type_invariant(&*self);
        }
        if self.returns_error {
            return Err(DeleteError::Unknown);
        }
        let i = match self.find_room(&room_name) {
            Some(i) => i,
            None => { return Err(DeleteError::NotFound); },
        };
        let j = match find_device(&self.rooms[i].devices, &device_name) {
            Some(j) => j,
            None => { return Err(DeleteError::NotFound); },
        };
        let mut rooms = self.take_rooms();
        let mut room = rooms.remove(i);
        proof {
            lemma_delete_device_keeps_wf(old(self)@, i as int, j as int);
            assert(devices_view(room.devices@.remove(j as int)) =~= devices_view(
                room.devices@,
            ).remove(j as int));
        }
        room.devices.remove(j);
        proof {
            assert(rooms_view(rooms@.insert(i as int, room)) =~= without_device(
                old(self)@,
                i as int,
                j as int,
            ));
        }
        rooms.insert(i, room);
        self.put_rooms(rooms);
        Ok(())
    }
}

impl Default for InMemoryRepository {
    fn default() -> (r: InMemoryRepository)
        ensures
            r@ == Seq::<RoomInfoView>::empty(),
            !r.failing(),
    {
        InMemoryRepository::new()
    }
}

/// The place of the device of that name in the list, if the list holds one.
fn find_device(devices: &Vec<DeviceInfo>, name: &DeviceName) -> (r: Option<usize>)
    ensures
        match r {
            Some(j) => j < devices@.len() && devices_view(devices@)[j as int].name == name@,
            None => !has_device(devices_view(devices@), name@),
        },
{
    let mut j: usize = 0;
    while j < devices.len()
        invariant
            j <= devices.len(),
            forall|k: int| 0 <= k < j ==> (#[trigger] devices_view(devices@)[k]).name != name@,
        decreases devices.len() - j,
    {
        if devices[j].name == *name {
            return Some(j);
        }
        j = j + 1;
    }
    None
}

} // verus!
