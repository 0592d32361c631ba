use crate::domain::address::SocketAddress;
use vstd::prelude::*;
use vstd::std_specs::cmp::PartialEqSpecImpl;
use vstd::std_specs::convert::FromSpecImpl;

verus! {

/// The name of a room: a non-empty text, compared letter for letter.
#[derive(Debug)]
pub struct RoomName(String);

impl View for RoomName {
    type V = Seq<char>;

    closed spec fn view(&self) -> Seq<char> {
        self.0@
    }
}

impl RoomName {
    #[verifier::type_invariant]
    spec fn well_formed(&self) -> bool {
        self.0@.len() > 0
    }

    /// The name as text, in specifications.
    pub closed spec fn text(self) -> String {
        self.0
    }

    /// Accepts every text but the empty one.
    pub fn try_from(n: String) -> (r: Result<RoomName, ()>)
        ensures
            n@.len() == 0 <==> r.is_err(),
            r.is_ok() ==> r.unwrap()@ == n@,
    {
        if n.as_str().is_empty() {
            Err(())
        } else {
            Ok(RoomName(n))
        }
    }

    /// A name is never empty.
    pub fn len_is_positive(&self)
        ensures
            self@.len() > 0,
    {
        proof {
            use_type_invariant(self);
        }
    }

    /// Gives the text up.
    pub fn into_string(self) -> (r: String)
        ensures
            r@ == self@,
            r@.len() > 0,
    {
        proof {
            use_type_invariant(&self);
        }
        self.0
    }

    /// The room name `bathroom`.
    pub fn bathroom() -> (r: RoomName)
        ensures
            r@ == "bathroom"@,
    {
        proof {
            reveal_strlit("bathroom");
        }
        RoomName(String::from_str("bathroom"))
    }

    /// The room name `kitchen`.
    pub fn kitchen() -> (r: RoomName)
        ensures
            r@ == "kitchen"@,
    {
        proof {
            reveal_strlit("kitchen");
        }
        RoomName(String::from_str("kitchen"))
    }
}

/// The text of a room name is what the name shows.
pub proof fn lemma_room_name_text(n: RoomName)
    ensures
        n.text()@ == n@,
{
}

impl Clone for RoomName {
    fn clone(&self) -> (r: RoomName)
        ensures
            r@ == self@,
    {
        proof {
            use_type_invariant(self);
        }
        RoomName(self.0.clone())
    }
}

impl PartialEq for RoomName {
    fn eq(&self, other: &RoomName) -> (r: bool) {
        self.0 == other.0
    }
}

impl PartialEqSpecImpl for RoomName {
    open spec fn obeys_eq_spec() -> bool {
        true
    }

    open spec fn eq_spec(&self, other: &RoomName) -> bool {
        self@ == other@
    }
}

impl Eq for RoomName {

}

impl From<RoomName> for String {
    fn from(n: RoomName) -> (r: String) {
        n.0
    }
}

impl FromSpecImpl<RoomName> for String {
    open spec fn obeys_from_spec() -> bool {
        true
    }

    open spec fn from_spec(n: RoomName) -> String {
        n.text()
    }
}

/// The name of a device: a non-empty text, compared letter for letter.
#[derive(Debug)]
pub struct DeviceName(String);

impl View for DeviceName {
    type V = Seq<char>;

    closed spec fn view(&self) -> Seq<char> {
        self.0@
    }
}

impl DeviceName {
    #[verifier::type_invariant]
    spec fn well_formed(&self) -> bool {
        self.0@.len() > 0
    }

    /// The name as text, in specifications.
    pub closed spec fn text(self) -> String {
        self.0
    }

    /// Accepts every text but the empty one.
    pub fn try_from(n: String) -> (r: Result<DeviceName, ()>)
        ensures
            n@.len() == 0 <==> r.is_err(),
            r.is_ok() ==> r.unwrap()@ == n@,
    {
        if n.as_str().is_empty() {
            Err(())
        } else {
            Ok(DeviceName(n))
        }
    }

    /// A name is never empty.
    pub fn len_is_positive(&self)
        ensures
            self@.len() > 0,
    {
        proof {
            use_type_invariant(self);
        }
    }

    /// Gives the text up.
    pub fn into_string(self) -> (r: String)
        ensures
            r@ == self@,
            r@.len() > 0,
    {
        proof {
            use_type_invariant(&self);
        }
        self.0
    }

    /// The device name `socket`.
    pub fn socket() -> (r: DeviceName)
        ensures
            r@ == "socket"@,
    {
        proof {
            reveal_strlit("socket");
        }
        DeviceName(String::from_str("socket"))
    }

    /// The device name `thermo`.
    pub fn thermo() -> (r: DeviceName)
        ensures
            r@ == "thermo"@,
    {
        proof {
            reveal_strlit("thermo");
        }
        DeviceName(String::from_str("thermo"))
    }
}

/// The text of a device name is what the name shows.
pub proof fn lemma_device_name_text(n: DeviceName)
    ensures
        n.text()@ == n@,
{
}

impl Clone for DeviceName {
    fn clone(&self) -> (r: DeviceName)
        ensures
            r@ == self@,
    {
        proof {
            use_type_invariant(self);
        }
        DeviceName(self.0.clone())
    }
}

impl PartialEq for DeviceName {
    fn eq(&self, other: &DeviceName) -> (r: bool) {
        self.0 == other.0
    }
}

impl PartialEqSpecImpl for DeviceName {
    open spec fn obeys_eq_spec() -> bool {
        true
    }

    open spec fn eq_spec(&self, other: &DeviceName) -> bool {
        self@ == other@
    }
}

impl Eq for DeviceName {

}

impl From<DeviceName> for String {
    fn from(n: DeviceName) -> (r: String) {
        n.0
    }
}

impl FromSpecImpl<DeviceName> for String {
    open spec fn obeys_from_spec() -> bool {
        true
    }

    open spec fn from_spec(n: DeviceName) -> String {
        n.text()
    }
}

/// The kinds of device.
#[derive(Clone, Copy, Debug, PartialEq, Eq, Structural)]
pub enum DeviceType {
    TcpSocket,
    UdpThermo,
}

/// The token that names a device type.
pub open spec fn device_type_token(t: DeviceType) -> Seq<char> {
    match t {
        DeviceType::TcpSocket => "tcp_socket"@,
        DeviceType::UdpThermo => "udp_thermo"@,
    }
}

/// The device type that a token names, if it names one.
pub open spec fn device_type_of(token: Seq<char>) -> Option<DeviceType> {
    if token == "tcp_socket"@ {
        Some(DeviceType::TcpSocket)
    } else if token == "udp_thermo"@ {
        Some(DeviceType::UdpThermo)
    } else {
        None
    }
}

/// Every device type is read back from its own token.
pub proof fn lemma_device_type_round_trip(t: DeviceType)
    ensures
        device_type_of(device_type_token(t)) == Some(t),
{
    reveal_strlit("tcp_socket");
    reveal_strlit("udp_thermo");
    assert("tcp_socket"@[0] == 't');
    assert("udp_thermo"@[0] == 'u');
}

impl DeviceType {
    /// Reads `tcp_socket` or `udp_thermo`; every other token is refused.
    pub fn try_from(t: String) -> (r: Result<DeviceType, ()>)
        ensures
            match device_type_of(t@) {
                Some(kind) => r == Ok::<DeviceType, ()>(kind),
                None => r.is_err(),
            },
    {
        if t == String::from_str("tcp_socket") {
            Ok(DeviceType::TcpSocket)
        } else if t == String::from_str("udp_thermo") {
            Ok(DeviceType::UdpThermo)
        } else {
            Err(())
        }
    }

    /// The token of this device type.
    pub fn token(self) -> (r: String)
        ensures
            r@ == device_type_token(self),
    {
        match self {
            DeviceType::TcpSocket => String::from_str("tcp_socket"),
            DeviceType::UdpThermo => String::from_str("udp_thermo"),
        }
    }
}

impl From<DeviceType> for String {
    fn from(t: DeviceType) -> (r: String)
        ensures
            r@ == device_type_token(t),
    {
        t.token()
    }
}

impl FromSpecImpl<DeviceType> for String {
    open spec fn obeys_from_spec() -> bool {
        false
    }

    open spec fn from_spec(t: DeviceType) -> String {
        arbitrary()
    }
}

/// A device as the registry keeps it.
#[derive(Debug)]
pub struct DeviceInfo {
    pub name: DeviceName,
    pub address: SocketAddress,
    pub device_type: DeviceType,
}

/// What a `DeviceInfo` holds.
pub ghost struct DeviceInfoView {
    pub name: Seq<char>,
    pub address: SocketAddress,
    pub device_type: DeviceType,
}

impl View for DeviceInfo {
    type V = DeviceInfoView;

    open spec fn view(&self) -> DeviceInfoView {
        DeviceInfoView { name: self.name@, address: self.address, device_type: self.device_type }
    }
}

impl Clone for DeviceInfo {
    fn clone(&self) -> (r: DeviceInfo)
        ensures
            r@ == self@,
    {
        DeviceInfo {
            name: self.name.clone(),
            address: self.address,
            device_type: self.device_type,
        }
    }
}

/// What a list of devices holds, in order.
pub open spec fn devices_view(devices: Seq<DeviceInfo>) -> Seq<DeviceInfoView> {
    devices.map_values(|d: DeviceInfo| d@)
}

/// A copy of a list of devices.
pub fn clone_devices(devices: &Vec<DeviceInfo>) -> (r: Vec<DeviceInfo>)
    ensures
        devices_view(r@) == devices_view(devices@),
{
    let mut out: Vec<DeviceInfo> = Vec::new();
    let mut i: usize = 0;
    while i < devices.len()
        invariant
            i <= devices.len(),
            out@.len() == i,
            forall|k: int| 0 <= k < i ==> out@[k]@ == devices@[k]@,
        decreases devices.len() - i,
    {
        out.push(devices[i].clone());
        i = i + 1;
    }
    assert(devices_view(out@) =~= devices_view(devices@));
    out
}

/// A room and the devices in it.
#[derive(Debug)]
pub struct RoomInfo {
    pub name: RoomName,
    pub devices: Vec<DeviceInfo>,
}

/// What a `RoomInfo` holds.
pub ghost struct RoomInfoView {
    pub name: Seq<char>,
    pub devices: Seq<DeviceInfoView>,
}

impl View for RoomInfo {
    type V = RoomInfoView;

    open spec fn view(&self) -> RoomInfoView {
        RoomInfoView { name: self.name@, devices: devices_view(self.devices@) }
    }
}

impl Clone for RoomInfo {
    fn clone(&self) -> (r: RoomInfo)
        ensures
            r@ == self@,
    {
        RoomInfo { name: self.name.clone(), devices: clone_devices(&self.devices) }
    }
}

/// What a list of rooms holds, in order.
pub open spec fn rooms_view(rooms: Seq<RoomInfo>) -> Seq<RoomInfoView> {
    rooms.map_values(|r: RoomInfo| r@)
}

} // verus!
