//! MQTT v5 control packets, and the mathematical model (`DeepView`) of each of them.
use vstd::prelude::*;

verus! {

/// Quality of service of an application message.
#[derive(Debug, Clone, Copy, PartialEq, Eq, Structural, PartialOrd, Ord, Hash)]
pub enum QoS {
    AtMostOnce,
    AtLeastOnce,
    ExactlyOnce,
}

impl DeepView for QoS {
    type V = QoS;

    open spec fn deep_view(&self) -> QoS {
        *self
    }
}

/// The number that the wire format gives to a QoS level.
pub open spec fn qos_level(q: QoS) -> u8 {
    match q {
        QoS::AtMostOnce => 0,
        QoS::AtLeastOnce => 1,
        QoS::ExactlyOnce => 2,
    }
}

/// Reason code of a CONNACK.
#[derive(Debug, Clone, Copy, PartialEq, Eq, Structural)]
pub enum ConnectReason {
    Success,
    UnspecifiedError,
    MalformedPacket,
    ProtocolError,
    ImplementationSpecificError,
    UnsupportedProtocolVersion,
    ClientIdentifierNotValid,
    BadUserNameOrPassword,
    NotAuthorized,
    ServerUnavailable,
    ServerBusy,
    Banned,
    BadAuthenticationMethod,
    TopicNameInvalid,
    PacketTooLarge,
    QuotaExceeded,
    PayloadFormatInvalid,
    RetainNotSupported,
    QoSNotSupported,
    UseAnotherServer,
    ServerMoved,
    ConnectionRateExceeded,
}

/// Reason code of a DISCONNECT.
#[derive(Debug, Clone, Copy, PartialEq, Eq, Structural)]
pub enum DisconnectReason {
    NormalDisconnection,
    ProtocolError,
    TopicAliasInvalid,
    SessionTakenOver,
}

/// Reason code of a PUBACK.
#[derive(Debug, Clone, Copy, PartialEq, Eq, Structural)]
pub enum PubAckReason {
    Success,
    NoMatchingSubscribers,
    UnspecifiedError,
    ImplementationSpecificError,
    NotAuthorized,
    TopicNameInvalid,
    PacketIdentifierInUse,
    QuotaExceeded,
    PayloadFormatInvalid,
}

/// Retain handling option of a subscription.
#[derive(Debug, Clone, Copy, PartialEq, Eq, Structural)]
pub enum RetainHandling {
    SendRetained,
    SendRetainedForNewSubscription,
    DoNotSendRetained,
}

/// Reason code of one topic filter of an UNSUBACK.
#[derive(Debug, Clone, Copy, PartialEq, Eq, Structural)]
pub enum UnsubscribeReason {
    Success,
    NoSubscriptionExisted,
    UnspecifiedError,
    ImplementationSpecificError,
    NotAuthorized,
    TopicFilterInvalid,
    PacketIdentifierInUse,
}

/// Reason code of one topic filter of a SUBACK.
#[derive(Debug, Clone, Copy, PartialEq, Eq, Structural)]
pub enum SubscribeReason {
    GrantedQoS0,
    UnspecifiedError,
}

/// A User Property: a UTF-8 string pair.
#[derive(Debug, PartialEq, Clone)]
pub struct UserProperty {
    pub key: String,
    pub value: String,
}

pub struct UserPropertyModel {
    pub key: Seq<char>,
    pub value: Seq<char>,
}

impl DeepView for UserProperty {
    type V = UserPropertyModel;

    open spec fn deep_view(&self) -> UserPropertyModel {
        UserPropertyModel { key: self.key@, value: self.value@ }
    }
}

/// The view of optional bytes.
pub open spec fn bytes_view(o: &Option<Vec<u8>>) -> Option<Seq<u8>> {
    match o {
        Some(v) => Some(v@),
        None => None,
    }
}

/// All possible MQTT properties.
#[derive(Debug, PartialEq)]
pub struct Properties {
    pub payload_format_indicator: Option<u8>,
    pub message_expiry_interval: Option<u32>,
    pub content_type: Option<String>,
    pub response_topic: Option<String>,
    pub correlation_data: Option<Vec<u8>>,
    pub subscription_identifier: Option<u32>,
    pub session_expiry_interval: Option<u32>,
    pub assigned_client_identifier: Option<String>,
    pub server_keep_alive: Option<u16>,
    pub authentication_method: Option<String>,
    pub authentication_data: Option<Vec<u8>>,
    pub request_problem_information: Option<bool>,
    pub will_delay_interval: Option<u32>,
    pub request_response_information: Option<bool>,
    pub response_information: Option<String>,
    pub server_reference: Option<String>,
    pub reason_string: Option<String>,
    pub receive_maximum: Option<u16>,
    pub topic_alias_maximum: Option<u16>,
    pub topic_alias: Option<u16>,
    pub maximum_qos: Option<QoS>,
    pub retain_available: Option<bool>,
    pub user_properties: Option<Vec<UserProperty>>,
    pub maximum_packet_size: Option<u32>,
    pub wildcard_subscription_available: Option<bool>,
    pub subscription_identifiers_available: Option<bool>,
    pub shared_subscription_available: Option<bool>,
}

pub struct PropertiesModel {
    pub payload_format_indicator: Option<u8>,
    pub message_expiry_interval: Option<u32>,
    pub content_type: Option<Seq<char>>,
    pub response_topic: Option<Seq<char>>,
    pub correlation_data: Option<Seq<u8>>,
    pub subscription_identifier: Option<u32>,
    pub session_expiry_interval: Option<u32>,
    pub assigned_client_identifier: Option<Seq<char>>,
    pub server_keep_alive: Option<u16>,
    pub authentication_method: Option<Seq<char>>,
    pub authentication_data: Option<Seq<u8>>,
    pub request_problem_information: Option<bool>,
    pub will_delay_interval: Option<u32>,
    pub request_response_information: Option<bool>,
    pub response_information: Option<Seq<char>>,
    pub server_reference: Option<Seq<char>>,
    pub reason_string: Option<Seq<char>>,
    pub receive_maximum: Option<u16>,
    pub topic_alias_maximum: Option<u16>,
    pub topic_alias: Option<u16>,
    pub maximum_qos: Option<QoS>,
    pub retain_available: Option<bool>,
    pub user_properties: Option<Seq<UserPropertyModel>>,
    pub maximum_packet_size: Option<u32>,
    pub wildcard_subscription_available: Option<bool>,
    pub subscription_identifiers_available: Option<bool>,
    pub shared_subscription_available: Option<bool>,
}

/// The model of a property set in which no property is present.
pub open spec fn empty_properties() -> PropertiesModel {
    PropertiesModel {
        payload_format_indicator: None,
        message_expiry_interval: None,
        content_type: None,
        response_topic: None,
        correlation_data: None,
        subscription_identifier: None,
        session_expiry_interval: None,
        assigned_client_identifier: None,
        server_keep_alive: None,
        authentication_method: None,
        authentication_data: None,
        request_problem_information: None,
        will_delay_interval: None,
        request_response_information: None,
        response_information: None,
        server_reference: None,
        reason_string: None,
        receive_maximum: None,
        topic_alias_maximum: None,
        topic_alias: None,
        maximum_qos: None,
        retain_available: None,
        user_properties: None,
        maximum_packet_size: None,
        wildcard_subscription_available: None,
        subscription_identifiers_available: None,
        shared_subscription_available: None,
    }
}

impl DeepView for Properties {
    type V = PropertiesModel;

    open spec fn deep_view(&self) -> PropertiesModel {
        PropertiesModel {
            payload_format_indicator: self.payload_format_indicator,
            message_expiry_interval: self.message_expiry_interval,
            content_type: self.content_type.deep_view(),
            response_topic: self.response_topic.deep_view(),
            correlation_data: bytes_view(&self.correlation_data),
            subscription_identifier: self.subscription_identifier,
            session_expiry_interval: self.session_expiry_interval,
            assigned_client_identifier: self.assigned_client_identifier.deep_view(),
            server_keep_alive: self.server_keep_alive,
            authentication_method: self.authentication_method.deep_view(),
            authentication_data: bytes_view(&self.authentication_data),
            request_problem_information: self.request_problem_information,
            will_delay_interval: self.will_delay_interval,
            request_response_information: self.request_response_information,
            response_information: self.response_information.deep_view(),
            server_reference: self.server_reference.deep_view(),
            reason_string: self.reason_string.deep_view(),
            receive_maximum: self.receive_maximum,
            topic_alias_maximum: self.topic_alias_maximum,
            topic_alias: self.topic_alias,
            maximum_qos: self.maximum_qos,
            retain_available: self.retain_available,
            user_properties: self.user_properties.deep_view(),
            maximum_packet_size: self.maximum_packet_size,
            wildcard_subscription_available: self.wildcard_subscription_available,
            subscription_identifiers_available: self.subscription_identifiers_available,
            shared_subscription_available: self.shared_subscription_available,
        }
    }
}

impl Properties {
    /// A property set in which no property is present.
    pub fn new() -> (p: Properties)
        ensures
            p.deep_view() == empty_properties(),
    {
        Properties {
            payload_format_indicator: None,
            message_expiry_interval: None,
            content_type: None,
            response_topic: None,
            correlation_data: None,
            subscription_identifier: None,
            session_expiry_interval: None,
            assigned_client_identifier: None,
            server_keep_alive: None,
            authentication_method: None,
            authentication_data: None,
            request_problem_information: None,
            will_delay_interval: None,
            request_response_information: None,
            response_information: None,
            server_reference: None,
            reason_string: None,
            receive_maximum: None,
            topic_alias_maximum: None,
            topic_alias: None,
            maximum_qos: None,
            retain_available: None,
            user_properties: None,
            maximum_packet_size: None,
            wildcard_subscription_available: None,
            subscription_identifiers_available: None,
            shared_subscription_available: None,
        }
    }
}

/// The payload of a message (Publish or Will).
#[derive(Debug, PartialEq, Clone)]
pub enum Payload {
    /// Unspecified bytes.
    Unspecified(Vec<u8>),
    /// UTF-8 encoded character data.
    String(String),
}

pub enum PayloadModel {
    Unspecified(Seq<u8>),
    String(Seq<char>),
}

impl DeepView for Payload {
    type V = PayloadModel;

    open spec fn deep_view(&self) -> PayloadModel {
        match self {
            Payload::Unspecified(b) => PayloadModel::Unspecified(b@),
            Payload::String(s) => PayloadModel::String(s@),
        }
    }
}

/// Whether a payload holds no byte (no character for a string payload).
pub open spec fn payload_model_is_empty(p: PayloadModel) -> bool {
    match p {
        PayloadModel::Unspecified(b) => b.len() == 0,
        PayloadModel::String(s) => s.len() == 0,
    }
}

impl Payload {
    pub fn is_empty(&self) -> (res: bool)
        ensures
            res == payload_model_is_empty(self.deep_view()),
    {
        match self {
            Payload::Unspecified(bytes) => bytes.len() == 0,
            Payload::String(string) => string.as_str().is_empty(),
        }
    }
}

/// An Application Message which is published by the Server after the Network Connection is
/// closed in cases where the Network Connection is not closed normally.
#[derive(Debug, PartialEq)]
pub struct Will {
    pub retain: bool,
    pub qos: QoS,
    pub topic: String,
    pub payload: Payload,
    pub delay_interval: Option<u32>,
    pub message_expiry_interval: Option<u32>,
    pub content_type: Option<String>,
    pub response_topic: Option<String>,
    pub correlation_data: Option<Vec<u8>>,
    pub user_properties: Option<Vec<UserProperty>>,
}

pub struct WillModel {
    pub retain: bool,
    pub qos: QoS,
    pub topic: Seq<char>,
    pub payload: PayloadModel,
    pub delay_interval: Option<u32>,
    pub message_expiry_interval: Option<u32>,
    pub content_type: Option<Seq<char>>,
    pub response_topic: Option<Seq<char>>,
    pub correlation_data: Option<Seq<u8>>,
    pub user_properties: Option<Seq<UserPropertyModel>>,
}

impl DeepView for Will {
    type V = WillModel;

    open spec fn deep_view(&self) -> WillModel {
        WillModel {
            retain: self.retain,
            qos: self.qos,
            topic: self.topic@,
            payload: self.payload.deep_view(),
            delay_interval: self.delay_interval,
            message_expiry_interval: self.message_expiry_interval,
            content_type: self.content_type.deep_view(),
            response_topic: self.response_topic.deep_view(),
            correlation_data: bytes_view(&self.correlation_data),
            user_properties: self.user_properties.deep_view(),
        }
    }
}

/// Enhanced authentication of a CONNECT.
#[derive(Debug, PartialEq)]
pub struct Authentication {
    pub authentication_method: String,
    pub authentication_data: Option<Vec<u8>>,
}

pub struct AuthenticationModel {
    pub authentication_method: Seq<char>,
    pub authentication_data: Option<Seq<u8>>,
}

impl DeepView for Authentication {
    type V = AuthenticationModel;

    open spec fn deep_view(&self) -> AuthenticationModel {
        AuthenticationModel {
            authentication_method: self.authentication_method@,
            authentication_data: bytes_view(&self.authentication_data),
        }
    }
}

/// CONNECT: connection request.
#[derive(Debug, PartialEq)]
pub struct Connect {
    pub protocol_name: String,
    pub protocol_version: u8,
    pub client_identifier: String,
    pub username: Option<String>,
    pub password: Option<Vec<u8>>,
    pub will: Option<Will>,
    pub clean_start: bool,
    pub keep_alive: u16,
    pub session_expiry_interval: Option<u32>,
    pub receive_maximum: Option<u16>,
    pub maximum_packet_size: Option<u32>,
    pub topic_alias_maximum: Option<u16>,
    pub request_response_information: Option<bool>,
    pub request_problem_information: Option<bool>,
    pub user_properties: Option<Vec<UserProperty>>,
    pub authentication: Option<Authentication>,
}

pub struct ConnectModel {
    pub protocol_name: Seq<char>,
    pub protocol_version: u8,
    pub client_identifier: Seq<char>,
    pub username: Option<Seq<char>>,
    pub password: Option<Seq<u8>>,
    pub will: Option<WillModel>,
    pub clean_start: bool,
    pub keep_alive: u16,
    pub session_expiry_interval: Option<u32>,
    pub receive_maximum: Option<u16>,
    pub maximum_packet_size: Option<u32>,
    pub topic_alias_maximum: Option<u16>,
    pub request_response_information: Option<bool>,
    pub request_problem_information: Option<bool>,
    pub user_properties: Option<Seq<UserPropertyModel>>,
    pub authentication: Option<AuthenticationModel>,
}

impl DeepView for Connect {
    type V = ConnectModel;

    open spec fn deep_view(&self) -> ConnectModel {
        ConnectModel {
            protocol_name: self.protocol_name@,
            protocol_version: self.protocol_version,
            client_identifier: self.client_identifier@,
            username: self.username.deep_view(),
            password: bytes_view(&self.password),
            will: self.will.deep_view(),
            clean_start: self.clean_start,
            keep_alive: self.keep_alive,
            session_expiry_interval: self.session_expiry_interval,
            receive_maximum: self.receive_maximum,
            maximum_packet_size: self.maximum_packet_size,
            topic_alias_maximum: self.topic_alias_maximum,
            request_response_information: self.request_response_information,
            request_problem_information: self.request_problem_information,
            user_properties: self.user_properties.deep_view(),
            authentication: self.authentication.deep_view(),
        }
    }
}

/// CONNACK: connect acknowledgement.
#[derive(Debug, PartialEq)]
pub struct ConnAck {
    pub session_present: bool,
    pub connect_reason: ConnectReason,
    pub session_expiry_interval: Option<u32>,
    pub receive_maximum: Option<u16>,
    pub maximum_qos: Option<QoS>,
    pub retain_available: Option<bool>,
    pub maximum_packet_size: Option<u32>,
    pub assigned_client_identifier: Option<String>,
    pub topic_alias_maximum: Option<u16>,
    pub reason_string: Option<String>,
    pub user_properties: Option<Vec<UserProperty>>,
    pub wildcard_subscription_available: Option<bool>,
    pub subscription_identifiers_available: Option<bool>,
    pub shared_subscription_available: Option<bool>,
    pub server_keep_alive: Option<u16>,
    pub response_information: Option<String>,
    pub server_reference: Option<String>,
    pub authentication_method: Option<String>,
    pub authentication_data: Option<Vec<u8>>,
}

pub struct ConnAckModel {
    pub session_present: bool,
    pub connect_reason: ConnectReason,
    pub session_expiry_interval: Option<u32>,
    pub receive_maximum: Option<u16>,
    pub maximum_qos: Option<QoS>,
    pub retain_available: Option<bool>,
    pub maximum_packet_size: Option<u32>,
    pub assigned_client_identifier: Option<Seq<char>>,
    pub topic_alias_maximum: Option<u16>,
    pub reason_string: Option<Seq<char>>,
    pub user_properties: Option<Seq<UserPropertyModel>>,
    pub wildcard_subscription_available: Option<bool>,
    pub subscription_identifiers_available: Option<bool>,
    pub shared_subscription_available: Option<bool>,
    pub server_keep_alive: Option<u16>,
    pub response_information: Option<Seq<char>>,
    pub server_reference: Option<Seq<char>>,
    pub authentication_method: Option<Seq<char>>,
    pub authentication_data: Option<Seq<u8>>,
}

impl DeepView for ConnAck {
    type V = ConnAckModel;

    open spec fn deep_view(&self) -> ConnAckModel {
        ConnAckModel {
            session_present: self.session_present,
            connect_reason: self.connect_reason,
            session_expiry_interval: self.session_expiry_interval,
            receive_maximum: self.receive_maximum,
            maximum_qos: self.maximum_qos,
            retain_available: self.retain_available,
            maximum_packet_size: self.maximum_packet_size,
            assigned_client_identifier: self.assigned_client_identifier.deep_view(),
            topic_alias_maximum: self.topic_alias_maximum,
            reason_string: self.reason_string.deep_view(),
            user_properties: self.user_properties.deep_view(),
            wildcard_subscription_available: self.wildcard_subscription_available,
            subscription_identifiers_available: self.subscription_identifiers_available,
            shared_subscription_available: self.shared_subscription_available,
            server_keep_alive: self.server_keep_alive,
            response_information: self.response_information.deep_view(),
            server_reference: self.server_reference.deep_view(),
            authentication_method: self.authentication_method.deep_view(),
            authentication_data: bytes_view(&self.authentication_data),
        }
    }
}

/// DISCONNECT notification.
#[derive(Debug, PartialEq)]
pub struct Disconnect {
    pub disconnect_reason: DisconnectReason,
    pub session_expiry_interval: Option<u32>,
    pub reason_string: Option<String>,
    pub user_properties: Option<Vec<UserProperty>>,
    pub server_reference: Option<String>,
}

pub struct DisconnectModel {
    pub disconnect_reason: DisconnectReason,
    pub session_expiry_interval: Option<u32>,
    pub reason_string: Option<Seq<char>>,
    pub user_properties: Option<Seq<UserPropertyModel>>,
    pub server_reference: Option<Seq<char>>,
}

impl DeepView for Disconnect {
    type V = DisconnectModel;

    open spec fn deep_view(&self) -> DisconnectModel {
        DisconnectModel {
            disconnect_reason: self.disconnect_reason,
            session_expiry_interval: self.session_expiry_interval,
            reason_string: self.reason_string.deep_view(),
            user_properties: self.user_properties.deep_view(),
            server_reference: self.server_reference.deep_view(),
        }
    }
}

/// PUBLISH: an application message.
#[derive(Debug, PartialEq, Clone)]
pub struct Publish {
    pub duplicate: bool,
    pub qos: QoS,
    pub retain: bool,
    pub topic_name: String,
    pub packet_identifier: Option<u16>,
    pub message_expiry_interval: Option<u32>,
    pub topic_alias: Option<u16>,
    pub response_topic: Option<String>,
    pub correlation_data: Option<Vec<u8>>,
    pub user_properties: Option<Vec<UserProperty>>,
    pub subscription_identifier: Option<u32>,
    pub content_type: Option<String>,
    pub payload: Payload,
}

pub struct PublishModel {
    pub duplicate: bool,
    pub qos: QoS,
    pub retain: bool,
    pub topic_name: Seq<char>,
    pub packet_identifier: Option<u16>,
    pub message_expiry_interval: Option<u32>,
    pub topic_alias: Option<u16>,
    pub response_topic: Option<Seq<char>>,
    pub correlation_data: Option<Seq<u8>>,
    pub user_properties: Option<Seq<UserPropertyModel>>,
    pub subscription_identifier: Option<u32>,
    pub content_type: Option<Seq<char>>,
    pub payload: PayloadModel,
}

impl DeepView for Publish {
    type V = PublishModel;

    open spec fn deep_view(&self) -> PublishModel {
        PublishModel {
            duplicate: self.duplicate,
            qos: self.qos,
            retain: self.retain,
            topic_name: self.topic_name@,
            packet_identifier: self.packet_identifier,
            message_expiry_interval: self.message_expiry_interval,
            topic_alias: self.topic_alias,
            response_topic: self.response_topic.deep_view(),
            correlation_data: bytes_view(&self.correlation_data),
            user_properties: self.user_properties.deep_view(),
            subscription_identifier: self.subscription_identifier,
            content_type: self.content_type.deep_view(),
            payload: self.payload.deep_view(),
        }
    }
}

/// PUBACK: publish acknowledgement.
#[derive(Debug, PartialEq)]
pub struct PubAck {
    pub packet_identifier: u16,
    pub reason: PubAckReason,
    pub reason_string: Option<String>,
    pub user_properties: Option<Vec<UserProperty>>,
}

pub struct PubAckModel {
    pub packet_identifier: u16,
    pub reason: PubAckReason,
    pub reason_string: Option<Seq<char>>,
    pub user_properties: Option<Seq<UserPropertyModel>>,
}

impl DeepView for PubAck {
    type V = PubAckModel;

    open spec fn deep_view(&self) -> PubAckModel {
        PubAckModel {
            packet_identifier: self.packet_identifier,
            reason: self.reason,
            reason_string: self.reason_string.deep_view(),
            user_properties: self.user_properties.deep_view(),
        }
    }
}

/// One topic filter of a SUBSCRIBE, with its subscription options.
#[derive(Debug, PartialEq, Clone)]
pub struct TopicFilter {
    pub filter: String,
    pub maximum_qos: QoS,
    pub no_local: bool,
    pub retain_as_published: bool,
    pub retain_handling: RetainHandling,
}

pub struct TopicFilterModel {
    pub filter: Seq<char>,
    pub maximum_qos: QoS,
    pub no_local: bool,
    pub retain_as_published: bool,
    pub retain_handling: RetainHandling,
}

impl DeepView for TopicFilter {
    type V = TopicFilterModel;

    open spec fn deep_view(&self) -> TopicFilterModel {
        TopicFilterModel {
            filter: self.filter@,
            maximum_qos: self.maximum_qos,
            no_local: self.no_local,
            retain_as_published: self.retain_as_published,
            retain_handling: self.retain_handling,
        }
    }
}

/// SUBSCRIBE request.
#[derive(Debug, PartialEq, Clone)]
pub struct Subscribe {
    pub packet_identifier: u16,
    pub subscription_identifier: Option<u32>,
    pub user_properties: Option<Vec<UserProperty>>,
    pub topic_filters: Vec<TopicFilter>,
}

pub struct SubscribeModel {
    pub packet_identifier: u16,
    pub subscription_identifier: Option<u32>,
    pub user_properties: Option<Seq<UserPropertyModel>>,
    pub topic_filters: Seq<TopicFilterModel>,
}

impl DeepView for Subscribe {
    type V = SubscribeModel;

    open spec fn deep_view(&self) -> SubscribeModel {
        SubscribeModel {
            packet_identifier: self.packet_identifier,
            subscription_identifier: self.subscription_identifier,
            user_properties: self.user_properties.deep_view(),
            topic_filters: self.topic_filters.deep_view(),
        }
    }
}

/// UNSUBACK: unsubscribe acknowledgement.
#[derive(Debug, PartialEq)]
pub struct UnsubAck {
    pub packet_identifier: u16,
    pub reason_string: Option<String>,
    pub user_properties: Option<Vec<UserProperty>>,
    pub reasons: Vec<UnsubscribeReason>,
}

pub struct UnsubAckModel {
    pub packet_identifier: u16,
    pub reason_string: Option<Seq<char>>,
    pub user_properties: Option<Seq<UserPropertyModel>>,
    pub reasons: Seq<UnsubscribeReason>,
}

impl DeepView for UnsubAck {
    type V = UnsubAckModel;

    open spec fn deep_view(&self) -> UnsubAckModel {
        UnsubAckModel {
            packet_identifier: self.packet_identifier,
            reason_string: self.reason_string.deep_view(),
            user_properties: self.user_properties.deep_view(),
            reasons: self.reasons@,
        }
    }
}

/// SUBACK: subscribe acknowledgement.
#[derive(Debug, PartialEq)]
pub struct SubAck {
    pub packet_identifier: u16,
    pub reason_string: Option<String>,
    pub user_properties: Option<Vec<UserProperty>>,
    pub reasons: Vec<SubscribeReason>,
}

pub struct SubAckModel {
    pub packet_identifier: u16,
    pub reason_string: Option<Seq<char>>,
    pub user_properties: Option<Seq<UserPropertyModel>>,
    pub reasons: Seq<SubscribeReason>,
}

impl DeepView for SubAck {
    type V = SubAckModel;

    open spec fn deep_view(&self) -> SubAckModel {
        SubAckModel {
            packet_identifier: self.packet_identifier,
            reason_string: self.reason_string.deep_view(),
            user_properties: self.user_properties.deep_view(),
            reasons: self.reasons@,
        }
    }
}

/// UNSUBSCRIBE request.
#[derive(Debug, PartialEq)]
pub struct Unsubscribe {
    pub packet_identifier: u16,
    pub topic_filters: Vec<String>,
    pub user_properties: Option<Vec<UserProperty>>,
}

pub struct UnsubscribeModel {
    pub packet_identifier: u16,
    pub topic_filters: Seq<Seq<char>>,
    pub user_properties: Option<Seq<UserPropertyModel>>,
}

impl DeepView for Unsubscribe {
    type V = UnsubscribeModel;

    open spec fn deep_view(&self) -> UnsubscribeModel {
        UnsubscribeModel {
            packet_identifier: self.packet_identifier,
            topic_filters: self.topic_filters.deep_view(),
            user_properties: self.user_properties.deep_view(),
        }
    }
}

/// An MQTT control packet.
#[derive(Debug, PartialEq)]
pub enum MqttPacket {
    Connect(Connect),
    ConnAck(ConnAck),
    Publish(Publish),
    PubAck(PubAck),
    PubRec,
    PubRel,
    PubComp,
    Subscribe(Subscribe),
    SubAck(SubAck),
    Unsubscribe(Unsubscribe),
    UnsubAck(UnsubAck),
    PingReq,
    PingResp,
    Disconnect(Disconnect),
    Auth,
}

pub enum MqttPacketModel {
    Connect(ConnectModel),
    ConnAck(ConnAckModel),
    Publish(PublishModel),
    PubAck(PubAckModel),
    PubRec,
    PubRel,
    PubComp,
    Subscribe(SubscribeModel),
    SubAck(SubAckModel),
    Unsubscribe(UnsubscribeModel),
    UnsubAck(UnsubAckModel),
    PingReq,
    PingResp,
    Disconnect(DisconnectModel),
    Auth,
}

impl DeepView for MqttPacket {
    type V = MqttPacketModel;

    open spec fn deep_view(&self) -> MqttPacketModel {
        match self {
            MqttPacket::Connect(c) => MqttPacketModel::Connect(c.deep_view()),
            MqttPacket::ConnAck(c) => MqttPacketModel::ConnAck(c.deep_view()),
            MqttPacket::Publish(p) => MqttPacketModel::Publish(p.deep_view()),
            MqttPacket::PubAck(p) => MqttPacketModel::PubAck(p.deep_view()),
            MqttPacket::PubRec => MqttPacketModel::PubRec,
            MqttPacket::PubRel => MqttPacketModel::PubRel,
            MqttPacket::PubComp => MqttPacketModel::PubComp,
            MqttPacket::Subscribe(s) => MqttPacketModel::Subscribe(s.deep_view()),
            MqttPacket::SubAck(s) => MqttPacketModel::SubAck(s.deep_view()),
            MqttPacket::Unsubscribe(u) => MqttPacketModel::Unsubscribe(u.deep_view()),
            MqttPacket::UnsubAck(u) => MqttPacketModel::UnsubAck(u.deep_view()),
            MqttPacket::PingReq => MqttPacketModel::PingReq,
            MqttPacket::PingResp => MqttPacketModel::PingResp,
            MqttPacket::Disconnect(d) => MqttPacketModel::Disconnect(d.deep_view()),
            MqttPacket::Auth => MqttPacketModel::Auth,
        }
    }
}

/// A copy of an optional string.
pub fn clone_opt_string(o: &Option<String>) -> (r: Option<String>)
    ensures
        r.deep_view() == o.deep_view(),
{
    match o {
        Some(s) => Some(s.clone()),
        None => None,
    }
}

/// A copy of optional bytes.
pub fn clone_opt_bytes(o: &Option<Vec<u8>>) -> (r: Option<Vec<u8>>)
    ensures
        bytes_view(&r) == bytes_view(o),
{
    match o {
        Some(v) => Some(vstd::slice::slice_to_vec(v.as_slice())),
        None => None,
    }
}

/// A copy of a list of User Properties.
pub fn clone_user_properties(us: &Vec<UserProperty>) -> (r: Vec<UserProperty>)
    ensures
        r.deep_view() == us.deep_view(),
{
    let mut r: Vec<UserProperty> = Vec::new();
    let mut i: usize = 0;
    while i < us.len()
        invariant
            i <= us@.len(),
            r.deep_view() == us.deep_view().take(i as int),
        decreases us@.len() - i,
    {
        let u = UserProperty { key: us[i].key.clone(), value: us[i].value.clone() };
        let ghost before = r.deep_view();
        r.push(u);
        assert(r.deep_view() == before.push(us[i as int].deep_view()));
        assert(us.deep_view().take(i + 1) == us.deep_view().take(i as int).push(us.deep_view()[i as int]));
        i = i + 1;
    }
    assert(us.deep_view().take(us@.len() as int) == us.deep_view());
    r
}

/// A copy of an optional list of User Properties.
pub fn clone_opt_user_properties(o: &Option<Vec<UserProperty>>) -> (r: Option<Vec<UserProperty>>)
    ensures
        r.deep_view() == o.deep_view(),
{
    match o {
        Some(us) => Some(clone_user_properties(us)),
        None => None,
    }
}


/// A copy of a payload.
pub fn clone_payload(p: &Payload) -> (r: Payload)
    ensures
        r.deep_view() == p.deep_view(),
{
    match p {
        Payload::Unspecified(b) => Payload::Unspecified(vstd::slice::slice_to_vec(b.as_slice())),
        Payload::String(s) => Payload::String(s.clone()),
    }
}

/// A copy of a PUBLISH.
pub fn clone_publish(p: &Publish) -> (r: Publish)
    ensures
        r.deep_view() == p.deep_view(),
{
    Publish {
        duplicate: p.duplicate,
        qos: p.qos,
        retain: p.retain,
        topic_name: p.topic_name.clone(),
        packet_identifier: p.packet_identifier,
        message_expiry_interval: p.message_expiry_interval,
        topic_alias: p.topic_alias,
        response_topic: clone_opt_string(&p.response_topic),
        correlation_data: clone_opt_bytes(&p.correlation_data),
        user_properties: clone_opt_user_properties(&p.user_properties),
        subscription_identifier: p.subscription_identifier,
        content_type: clone_opt_string(&p.content_type),
        payload: clone_payload(&p.payload),
    }
}

} // verus!
