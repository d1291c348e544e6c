pub mod card;
pub mod card_service;
mod clock;
pub mod user;
pub mod user_service;

pub use card::Card;
pub use card::CardStatus;
pub use card::CreateCardRequest;
pub use card::UpdateCardRequest;
pub use card_service::CardService;
pub use user::CreateUserRequest;
pub use user::UpdateUserRequest;
pub use user::User;
pub use user_service::UserService;
